//! The dealer's multiplication gates: a random mask lambda_z, a Beaver
//! triple (a, b, c = a * b) of random matrices, and the public corrections
//! delta_x = a - lambda_x and delta_y = b - lambda_y.
use crate::beaver::{lemma_matmul_beaver, lemma_matmul_mac, lemma_row_col_range, matmul_mac_share, matmul_share};
use crate::dealer::{lemma_clear_modulus_divides, lemma_two_party_shares, shares_hide, widened_bytes, AllPartiesSharesVec, FakeParty};
use crate::fake_gate::{fake_fresh, random_vec, FakeGate, FakeGateData};
use crate::gate::size_ok;
use crate::linear_algebra::{matrix_multiply, matrix_subtract};
use crate::ring::{cong, dot, lemma_cong, lemma_dot_mod, lemma_mat_mul_entry, mat_mul, pw_add, pw_sub, seq_sub};
use crate::share::{modulus, seq_to_bytes, values, ShareElement, Spdz2kShare};
use vstd::prelude::*;

verus! {

/// What the dealer deals for a product gate.
pub struct MultiplyDealing<S: Spdz2kShare, const N: usize> {
    pub lambda_clear: Vec<S::ClearType>,
    pub lambda: AllPartiesSharesVec<S, N>,
    pub a_clear: Vec<S::ClearType>,
    pub b_clear: Vec<S::ClearType>,
    pub c_clear: Vec<S::ClearType>,
    pub a: AllPartiesSharesVec<S, N>,
    pub b: AllPartiesSharesVec<S, N>,
    pub c: AllPartiesSharesVec<S, N>,
    pub delta_x: Vec<S::ClearType>,
    pub delta_y: Vec<S::ClearType>,
}

/// The parts every dealing for a product has: masks and triple of the given
/// sizes, shared under the key, and the corrections a - lambda_x and
/// b - lambda_y.
pub open spec fn dealing_shared<S: Spdz2kShare, const N: usize>(d: MultiplyDealing<S, N>, lx: Seq<S::ClearType>, ly: Seq<S::ClearType>, n_lhs: int, n_rhs: int, n_out: int, key: int) -> bool {
    let m = modulus::<S::ClearType>();
    &&& d.lambda_clear@.len() == n_out
    &&& d.a_clear@.len() == n_lhs
    &&& d.b_clear@.len() == n_rhs
    &&& d.c_clear@.len() == n_out
    &&& shares_hide::<S>(d.lambda.value_shares@, d.lambda.mac_shares@, values(d.lambda_clear@), key, N as int)
    &&& shares_hide::<S>(d.a.value_shares@, d.a.mac_shares@, values(d.a_clear@), key, N as int)
    &&& shares_hide::<S>(d.b.value_shares@, d.b.mac_shares@, values(d.b_clear@), key, N as int)
    &&& shares_hide::<S>(d.c.value_shares@, d.c.mac_shares@, values(d.c_clear@), key, N as int)
    &&& values(d.delta_x@) == seq_sub(values(d.a_clear@), values(lx), m)
    &&& values(d.delta_y@) == seq_sub(values(d.b_clear@), values(ly), m)
}

/// A dealing for the product of a rows x mid and a mid x cols matrix:
/// c = a * b in Z_{2^K}.
pub open spec fn matmul_dealing_ok<S: Spdz2kShare, const N: usize>(d: MultiplyDealing<S, N>, lx: Seq<S::ClearType>, ly: Seq<S::ClearType>, rows: int, mid: int, cols: int, key: int) -> bool {
    &&& dealing_shared(d, lx, ly, rows * mid, mid * cols, rows * cols, key)
    &&& values(d.c_clear@) == mat_mul(values(d.a_clear@), values(d.b_clear@), rows, mid, cols, modulus::<S::ClearType>())
}

/// The bytes party i's file gets from a dealing: its shares of a, b, c and
/// lambda_z, each followed by the MAC shares, then delta_x and delta_y.
pub open spec fn dealing_bytes<S: Spdz2kShare, const N: usize>(d: MultiplyDealing<S, N>, i: int) -> Seq<u8> {
    seq_to_bytes(d.a.value_shares@[i]@) + seq_to_bytes(d.a.mac_shares@[i]@)
        + seq_to_bytes(d.b.value_shares@[i]@) + seq_to_bytes(d.b.mac_shares@[i]@)
        + seq_to_bytes(d.c.value_shares@[i]@) + seq_to_bytes(d.c.mac_shares@[i]@)
        + seq_to_bytes(d.lambda.value_shares@[i]@) + seq_to_bytes(d.lambda.mac_shares@[i]@)
        + widened_bytes::<S>(d.delta_x@) + widened_bytes::<S>(d.delta_y@)
}

/// The bytes party i's file gets from the shares of a dealing (everything
/// but the corrections).
pub open spec fn share_bytes<S: Spdz2kShare, const N: usize>(d: MultiplyDealing<S, N>, i: int) -> Seq<u8> {
    seq_to_bytes(d.a.value_shares@[i]@) + seq_to_bytes(d.a.mac_shares@[i]@)
        + seq_to_bytes(d.b.value_shares@[i]@) + seq_to_bytes(d.b.mac_shares@[i]@)
        + seq_to_bytes(d.c.value_shares@[i]@) + seq_to_bytes(d.c.mac_shares@[i]@)
        + seq_to_bytes(d.lambda.value_shares@[i]@) + seq_to_bytes(d.lambda.mac_shares@[i]@)
}

fn write_dealing_shares<S: Spdz2kShare, const N: usize>(party: &mut FakeParty<S, N>, d: &MultiplyDealing<S, N>)
    requires
        old(party).well_formed(),
        d.a.value_shares@.len() == N,
        d.a.mac_shares@.len() == N,
        d.b.value_shares@.len() == N,
        d.b.mac_shares@.len() == N,
        d.c.value_shares@.len() == N,
        d.c.mac_shares@.len() == N,
        d.lambda.value_shares@.len() == N,
        d.lambda.mac_shares@.len() == N,
    ensures
        final(party).well_formed(),
        final(party).key() == old(party).key(),
        final(party).key_share_values() == old(party).key_share_values(),
        final(party).pending().len() == N,
        forall|i: int| 0 <= i < N ==> #[trigger] final(party).pending()[i] == old(party).pending()[i] + share_bytes(*d, i),
{
    let ghost p0 = party.pending();
    party.write_shares_to_all_parties(&d.a.value_shares);
    party.write_shares_to_all_parties(&d.a.mac_shares);
    party.write_shares_to_all_parties(&d.b.value_shares);
    party.write_shares_to_all_parties(&d.b.mac_shares);
    let ghost p4 = party.pending();
    proof {
        assert forall|i: int| 0 <= i < N implies #[trigger] p4[i] == p0[i] + (seq_to_bytes(d.a.value_shares@[i]@) + seq_to_bytes(d.a.mac_shares@[i]@) + seq_to_bytes(d.b.value_shares@[i]@) + seq_to_bytes(d.b.mac_shares@[i]@)) by {
            assert(p4[i] =~= p0[i] + (seq_to_bytes(d.a.value_shares@[i]@) + seq_to_bytes(d.a.mac_shares@[i]@) + seq_to_bytes(d.b.value_shares@[i]@) + seq_to_bytes(d.b.mac_shares@[i]@)));
        }
    }
    party.write_shares_to_all_parties(&d.c.value_shares);
    party.write_shares_to_all_parties(&d.c.mac_shares);
    party.write_shares_to_all_parties(&d.lambda.value_shares);
    party.write_shares_to_all_parties(&d.lambda.mac_shares);
    proof {
        assert forall|i: int| 0 <= i < N implies #[trigger] party.pending()[i] == p0[i] + share_bytes(*d, i) by {
            assert(party.pending()[i] =~= p0[i] + share_bytes(*d, i));
        }
    }
}

/// Writes a dealing to every party's file.
pub fn write_dealing<S: Spdz2kShare, const N: usize>(party: &mut FakeParty<S, N>, d: &MultiplyDealing<S, N>)
    requires
        old(party).well_formed(),
        d.a.value_shares@.len() == N,
        d.a.mac_shares@.len() == N,
        d.b.value_shares@.len() == N,
        d.b.mac_shares@.len() == N,
        d.c.value_shares@.len() == N,
        d.c.mac_shares@.len() == N,
        d.lambda.value_shares@.len() == N,
        d.lambda.mac_shares@.len() == N,
    ensures
        final(party).well_formed(),
        final(party).key() == old(party).key(),
        final(party).key_share_values() == old(party).key_share_values(),
        final(party).pending().len() == N,
        forall|i: int| 0 <= i < N ==> #[trigger] final(party).pending()[i] == old(party).pending()[i] + dealing_bytes(*d, i),
{
    let ghost p0 = party.pending();
    write_dealing_shares(party, d);
    party.write_clear_to_all_parties(d.delta_x.as_slice());
    party.write_clear_to_all_parties(d.delta_y.as_slice());
    proof {
        assert forall|i: int| 0 <= i < N implies #[trigger] party.pending()[i] == p0[i] + dealing_bytes(*d, i) by {
            assert(dealing_bytes(*d, i) =~= share_bytes(*d, i) + widened_bytes::<S>(d.delta_x@) + widened_bytes::<S>(d.delta_y@));
            assert(party.pending()[i] =~= p0[i] + dealing_bytes(*d, i));
        }
    }
}

pub struct FakeMultiplyGate<S: Spdz2kShare, const N: usize> {
    pub data: FakeGateData<S, N>,
    pub dim_mid: usize,
}

impl<S: Spdz2kShare, const N: usize> FakeMultiplyGate<S, N> {
    pub closed spec fn mid(&self) -> usize {
        self.dim_mid
    }

    pub fn new(input_x: usize, input_y: usize, dim_row: usize, dim_mid: usize, dim_col: usize) -> (r: Self)
        ensures
            fake_fresh(r.fake_data(), dim_row, dim_col, Some(input_x), Some(input_y)),
            r.mid() == dim_mid,
    {
        let mut data = FakeGateData::new_with_inputs(input_x, Some(input_y));
        data.dim_row = dim_row;
        data.dim_col = dim_col;
        FakeMultiplyGate { data, dim_mid }
    }

    pub fn get_dim_mid(&self) -> (r: usize)
        ensures
            r == self.mid(),
    {
        self.dim_mid
    }

    /// Deals a random mask and a random matrix triple, and the corrections
    /// for the inputs' masks.
    pub fn deal(&self, lambda_x: &Vec<S::ClearType>, lambda_y: &Vec<S::ClearType>, party: &FakeParty<S, N>) -> (r: MultiplyDealing<S, N>)
        requires
            party.well_formed(),
            N >= 1,
            size_ok(self.fake_data().dim_row as int, self.mid() as int),
            size_ok(self.mid() as int, self.fake_data().dim_col as int),
            size_ok(self.fake_data().dim_row as int, self.fake_data().dim_col as int),
        ensures
            matmul_dealing_ok(r, lambda_x@, lambda_y@, self.fake_data().dim_row as int, self.mid() as int, self.fake_data().dim_col as int, party.key()),
    {
        let size_lhs = self.data.dim_row * self.dim_mid;
        let size_rhs = self.dim_mid * self.data.dim_col;
        let size_output = self.data.dim_row * self.data.dim_col;
        let lambda_clear = random_vec::<S::ClearType>(size_output);
        let lambda = party.generate_all_parties_shares_vec(lambda_clear.as_slice());
        let a_clear = random_vec::<S::ClearType>(size_lhs);
        let b_clear = random_vec::<S::ClearType>(size_rhs);
        let c_clear = matrix_multiply(a_clear.as_slice(), b_clear.as_slice(), self.data.dim_row, self.dim_mid, self.data.dim_col);
        let a = party.generate_all_parties_shares_vec(a_clear.as_slice());
        let b = party.generate_all_parties_shares_vec(b_clear.as_slice());
        let c = party.generate_all_parties_shares_vec(c_clear.as_slice());
        let delta_x = matrix_subtract(a_clear.as_slice(), lambda_x.as_slice());
        let delta_y = matrix_subtract(b_clear.as_slice(), lambda_y.as_slice());
        MultiplyDealing { lambda_clear, lambda, a_clear, b_clear, c_clear, a, b, c, delta_x, delta_y }
    }

    /// Replaces this gate's mask and its shares.
    pub fn replace_lambda(&mut self, lambda_clear: Vec<S::ClearType>, lambda_shr: Vec<Vec<S::SemiShrType>>, lambda_shr_mac: Vec<Vec<S::SemiShrType>>)
        ensures
            final(self).mid() == old(self).mid(),
            final(self).fake_data() == (FakeGateData::<S, N> { lambda_clear, lambda_shr, lambda_shr_mac, ..old(self).fake_data() }),
    {
        self.data.lambda_clear = lambda_clear;
        self.data.lambda_shr = lambda_shr;
        self.data.lambda_shr_mac = lambda_shr_mac;
    }

    /// Deals and writes everything a product gate reads; the mask becomes
    /// this gate's mask.
    pub fn do_run_offline_base(&mut self, lambda_x: &Vec<S::ClearType>, lambda_y: &Vec<S::ClearType>, party: &mut FakeParty<S, N>)
        requires
            old(party).well_formed(),
            N >= 1,
            size_ok(old(self).fake_data().dim_row as int, old(self).mid() as int),
            size_ok(old(self).mid() as int, old(self).fake_data().dim_col as int),
            size_ok(old(self).fake_data().dim_row as int, old(self).fake_data().dim_col as int),
        ensures
            final(self).mid() == old(self).mid(),
            final(self).fake_data() == (FakeGateData::<S, N> {
                lambda_clear: final(self).fake_data().lambda_clear,
                lambda_shr: final(self).fake_data().lambda_shr,
                lambda_shr_mac: final(self).fake_data().lambda_shr_mac,
                evaluated_offline: true,
                ..old(self).fake_data()
            }),
            final(party).well_formed(),
            final(party).key() == old(party).key(),
            final(party).key_share_values() == old(party).key_share_values(),
            final(party).pending().len() == N,
            exists|d: MultiplyDealing<S, N>|
                #[trigger] matmul_dealing_ok(d, lambda_x@, lambda_y@, old(self).fake_data().dim_row as int, old(self).mid() as int, old(self).fake_data().dim_col as int, old(party).key())
                && d.lambda_clear == final(self).fake_data().lambda_clear
                && d.lambda.value_shares == final(self).fake_data().lambda_shr
                && d.lambda.mac_shares == final(self).fake_data().lambda_shr_mac
                && forall|i: int| 0 <= i < N ==> #[trigger] final(party).pending()[i] == old(party).pending()[i] + dealing_bytes(d, i),
    {
        let d = self.deal(lambda_x, lambda_y, party);
        write_dealing(party, &d);
        let ghost dd = d;
        self.data.lambda_clear = d.lambda_clear;
        self.data.lambda_shr = d.lambda.value_shares;
        self.data.lambda_shr_mac = d.lambda.mac_shares;
        self.data.evaluated_offline = true;
        proof {
            assert(matmul_dealing_ok(dd, lambda_x@, lambda_y@, old(self).fake_data().dim_row as int, old(self).mid() as int, old(self).fake_data().dim_col as int, old(party).key()));
        }
    }
}

impl<S: Spdz2kShare, const N: usize> FakeGate<S, N> for FakeMultiplyGate<S, N> {
    closed spec fn fake_data(&self) -> FakeGateData<S, N> {
        self.data
    }

    open spec fn gate_name(&self) -> Seq<char> {
        "FakeMultiplyGate"@
    }

    fn name(&self) -> &'static str {
        "FakeMultiplyGate"
    }

    fn dim_row(&self) -> usize {
        self.data.dim_row
    }

    fn dim_col(&self) -> usize {
        self.data.dim_col
    }

    fn input_x(&self) -> Option<usize> {
        self.data.input_x
    }

    fn input_y(&self) -> Option<usize> {
        self.data.input_y
    }

    fn lambda_clear(&self) -> &Vec<S::ClearType> {
        &self.data.lambda_clear
    }

    fn lambda_shr(&self) -> &Vec<Vec<S::SemiShrType>> {
        &self.data.lambda_shr
    }

    fn lambda_shr_mac(&self) -> &Vec<Vec<S::SemiShrType>> {
        &self.data.lambda_shr_mac
    }

    fn is_evaluated_offline(&self) -> bool {
        self.data.evaluated_offline
    }
}

/// Party p's share values of a dealt matrix.
pub open spec fn party_values<S: Spdz2kShare, const N: usize>(x: AllPartiesSharesVec<S, N>, p: int) -> Seq<int> {
    values(x.value_shares@[p]@)
}

/// Law (a dealt product, two parties): when the two parties compute their
/// Delta_z shares of a matrix product from a dealer's dealing (their shares
/// of a, b, c and lambda_z) and the opened operands tx and ty, the shares add
/// up, entry (i, j) and modulo 2^K, to ((tx - a) * (ty - b))[i][j] +
/// lambda_z[i][j], with a, b and lambda_z the dealer's clear values.
pub proof fn lemma_dealt_matmul<S: Spdz2kShare, const N: usize>(
    d: MultiplyDealing<S, N>,
    lx: Seq<S::ClearType>,
    ly: Seq<S::ClearType>,
    rows: int,
    mid: int,
    cols: int,
    key: int,
    tx: Seq<int>,
    ty: Seq<int>,
    i: int,
    j: int,
)
    requires
        N == 2,
        matmul_dealing_ok(d, lx, ly, rows, mid, cols, key),
        0 <= i < rows,
        0 <= j < cols,
        0 <= mid,
        tx.len() == rows * mid,
        ty.len() == mid * cols,
    ensures
        cong(
            matmul_share(party_values(d.a, 0), party_values(d.b, 0), party_values(d.c, 0), party_values(d.lambda, 0), tx, ty, rows, mid, cols, modulus::<S::SemiShrType>(), true)[i * cols + j]
                + matmul_share(party_values(d.a, 1), party_values(d.b, 1), party_values(d.c, 1), party_values(d.lambda, 1), tx, ty, rows, mid, cols, modulus::<S::SemiShrType>(), false)[i * cols + j],
            dot(pw_sub(tx, values(d.a_clear@)), pw_sub(ty, values(d.b_clear@)), mid, cols, i, j, mid) + values(d.lambda_clear@)[i * cols + j],
            modulus::<S::ClearType>(),
        ),
{
    lemma_clear_modulus_divides::<S>();
    let pm = modulus::<S::ClearType>();
    let ring = modulus::<S::SemiShrType>();
    let t = i * cols + j;
    crate::ring::lemma_index(i, j, rows, cols);
    lemma_row_col_range(rows, mid, cols, i, j);
    let a0 = party_values(d.a, 0);
    let a1 = party_values(d.a, 1);
    let b0 = party_values(d.b, 0);
    let b1 = party_values(d.b, 1);
    let c0 = party_values(d.c, 0);
    let c1 = party_values(d.c, 1);
    let l0 = party_values(d.lambda, 0);
    let l1 = party_values(d.lambda, 1);
    let ac = values(d.a_clear@);
    let bc = values(d.b_clear@);
    let cc = values(d.c_clear@);
    let lc = values(d.lambda_clear@);
    assert(d.a.value_shares@[0]@.len() == rows * mid && d.a.value_shares@[1]@.len() == rows * mid);
    assert(d.b.value_shares@[0]@.len() == mid * cols && d.b.value_shares@[1]@.len() == mid * cols);
    assert(d.c.value_shares@[0]@.len() == rows * cols && d.c.value_shares@[1]@.len() == rows * cols);
    assert(d.lambda.value_shares@[0]@.len() == rows * cols && d.lambda.value_shares@[1]@.len() == rows * cols);
    let sa = pw_add(a0, a1);
    let sb = pw_add(b0, b1);
    // the shares open to the dealer's values modulo 2^K
    assert forall|q: int| 0 <= q < mid implies #[trigger] (sa[i * mid + q] % pm) == ac[i * mid + q] % pm && pw_sub(tx, sa)[i * mid + q] % pm == pw_sub(tx, ac)[i * mid + q] % pm by {
        let e = i * mid + q;
        lemma_two_party_shares::<S>(d.a.value_shares@, d.a.mac_shares@, ac, key, e);
        lemma_cong(tx[e], tx[e], sa[e], ac[e], pm);
    }
    assert forall|q: int| 0 <= q < mid implies #[trigger] (sb[q * cols + j] % pm) == bc[q * cols + j] % pm && pw_sub(ty, sb)[q * cols + j] % pm == pw_sub(ty, bc)[q * cols + j] % pm by {
        let e = q * cols + j;
        lemma_two_party_shares::<S>(d.b.value_shares@, d.b.mac_shares@, bc, key, e);
        lemma_cong(ty[e], ty[e], sb[e], bc[e], pm);
    }
    assert forall|q: int| 0 <= q < mid implies #[trigger] (pw_sub(tx, sa)[i * mid + q] % pm) == pw_sub(tx, ac)[i * mid + q] % pm by {
        assert(sa[i * mid + q] % pm == ac[i * mid + q] % pm && pw_sub(tx, sa)[i * mid + q] % pm == pw_sub(tx, ac)[i * mid + q] % pm);
    }
    assert forall|q: int| 0 <= q < mid implies #[trigger] (pw_sub(ty, sb)[q * cols + j] % pm) == pw_sub(ty, bc)[q * cols + j] % pm by {
        assert(sb[q * cols + j] % pm == bc[q * cols + j] % pm && pw_sub(ty, sb)[q * cols + j] % pm == pw_sub(ty, bc)[q * cols + j] % pm);
    }
    lemma_two_party_shares::<S>(d.c.value_shares@, d.c.mac_shares@, cc, key, t);
    lemma_two_party_shares::<S>(d.lambda.value_shares@, d.lambda.mac_shares@, lc, key, t);
    // the triple is valid modulo 2^K
    lemma_mat_mul_entry(ac, bc, rows, mid, cols, pm, i, j);
    lemma_dot_mod(ac, sa, bc, sb, mid, cols, i, j, mid, pm);
    crate::ring::lemma_cong_mod(dot(ac, bc, mid, cols, i, j, mid), pm);
    assert(cong(c0[t] + c1[t], dot(sa, sb, mid, cols, i, j, mid), pm));
    lemma_matmul_beaver(a0, a1, b0, b1, c0, c1, l0, l1, tx, ty, rows, mid, cols, ring, pm, i, j);
    // the operands against the dealer's values
    lemma_dot_mod(pw_sub(tx, ac), pw_sub(tx, sa), pw_sub(ty, bc), pw_sub(ty, sb), mid, cols, i, j, mid, pm);
    let d1 = dot(pw_sub(tx, sa), pw_sub(ty, sb), mid, cols, i, j, mid);
    let d2 = dot(pw_sub(tx, ac), pw_sub(ty, bc), mid, cols, i, j, mid);
    lemma_cong(d1, d2, l0[t] + l1[t], lc[t], pm);
    assert(d1 + l0[t] + l1[t] == d1 + (l0[t] + l1[t]));
}

/// Party p's MAC share values of a dealt matrix.
pub open spec fn party_macs<S: Spdz2kShare, const N: usize>(x: AllPartiesSharesVec<S, N>, p: int) -> Seq<int> {
    values(x.mac_shares@[p]@)
}

/// Law (MAC of a dealt product, two parties): with the key shares k0 and k1
/// of the dealer's key, the MAC shares that the two parties compute for a
/// matrix product from a dealing add up, entry (i, j) and modulo 2^(K+S), to
/// (k0 + k1) times the sum of their Delta_z shares.
pub proof fn lemma_dealt_matmul_mac<S: Spdz2kShare, const N: usize>(
    d: MultiplyDealing<S, N>,
    lx: Seq<S::ClearType>,
    ly: Seq<S::ClearType>,
    rows: int,
    mid: int,
    cols: int,
    key: int,
    k0: int,
    k1: int,
    tx: Seq<int>,
    ty: Seq<int>,
    i: int,
    j: int,
)
    requires
        N == 2,
        matmul_dealing_ok(d, lx, ly, rows, mid, cols, key),
        cong(key, k0 + k1, modulus::<S::SemiShrType>()),
        0 <= i < rows,
        0 <= j < cols,
        0 <= mid,
        tx.len() == rows * mid,
        ty.len() == mid * cols,
    ensures
        cong(
            matmul_mac_share(party_macs(d.a, 0), party_macs(d.b, 0), party_macs(d.c, 0), party_macs(d.lambda, 0), tx, ty, k0, rows, mid, cols, modulus::<S::SemiShrType>())[i * cols + j]
                + matmul_mac_share(party_macs(d.a, 1), party_macs(d.b, 1), party_macs(d.c, 1), party_macs(d.lambda, 1), tx, ty, k1, rows, mid, cols, modulus::<S::SemiShrType>())[i * cols + j],
            (k0 + k1) * (matmul_share(party_values(d.a, 0), party_values(d.b, 0), party_values(d.c, 0), party_values(d.lambda, 0), tx, ty, rows, mid, cols, modulus::<S::SemiShrType>(), true)[i * cols + j]
                + matmul_share(party_values(d.a, 1), party_values(d.b, 1), party_values(d.c, 1), party_values(d.lambda, 1), tx, ty, rows, mid, cols, modulus::<S::SemiShrType>(), false)[i * cols + j]),
            modulus::<S::SemiShrType>(),
        ),
{
    lemma_clear_modulus_divides::<S>();
    let ring = modulus::<S::SemiShrType>();
    let t = i * cols + j;
    crate::ring::lemma_index(i, j, rows, cols);
    assert(ring % ring == 0) by {
        vstd::arithmetic::div_mod::lemma_mod_self_0(ring);
    }
    assert(d.a.value_shares@[0]@.len() == rows * mid && d.a.value_shares@[1]@.len() == rows * mid);
    assert(d.b.value_shares@[0]@.len() == mid * cols && d.b.value_shares@[1]@.len() == mid * cols);
    assert(d.c.value_shares@[0]@.len() == rows * cols && d.c.value_shares@[1]@.len() == rows * cols);
    assert(d.lambda.value_shares@[0]@.len() == rows * cols && d.lambda.value_shares@[1]@.len() == rows * cols);
    assert(d.a.mac_shares@[0]@.len() == rows * mid && d.a.mac_shares@[1]@.len() == rows * mid);
    assert(d.b.mac_shares@[0]@.len() == mid * cols && d.b.mac_shares@[1]@.len() == mid * cols);
    assert(d.c.mac_shares@[0]@.len() == rows * cols && d.c.mac_shares@[1]@.len() == rows * cols);
    assert(d.lambda.mac_shares@[0]@.len() == rows * cols && d.lambda.mac_shares@[1]@.len() == rows * cols);
    assert forall|e: int| 0 <= e < rows * mid implies cong(
        #[trigger] party_macs(d.a, 0)[e] + party_macs(d.a, 1)[e],
        (k0 + k1) * (party_values(d.a, 0)[e] + party_values(d.a, 1)[e]),
        ring,
    ) by {
        lemma_two_party_shares::<S>(d.a.value_shares@, d.a.mac_shares@, values(d.a_clear@), key, e);
        let v = party_values(d.a, 0)[e] + party_values(d.a, 1)[e];
        lemma_cong(key, k0 + k1, v, v, ring);
    }
    assert forall|e: int| 0 <= e < mid * cols implies cong(
        #[trigger] party_macs(d.b, 0)[e] + party_macs(d.b, 1)[e],
        (k0 + k1) * (party_values(d.b, 0)[e] + party_values(d.b, 1)[e]),
        ring,
    ) by {
        lemma_two_party_shares::<S>(d.b.value_shares@, d.b.mac_shares@, values(d.b_clear@), key, e);
        let v = party_values(d.b, 0)[e] + party_values(d.b, 1)[e];
        lemma_cong(key, k0 + k1, v, v, ring);
    }
    lemma_two_party_shares::<S>(d.c.value_shares@, d.c.mac_shares@, values(d.c_clear@), key, t);
    lemma_two_party_shares::<S>(d.lambda.value_shares@, d.lambda.mac_shares@, values(d.lambda_clear@), key, t);
    let vc = party_values(d.c, 0)[t] + party_values(d.c, 1)[t];
    let vl = party_values(d.lambda, 0)[t] + party_values(d.lambda, 1)[t];
    lemma_cong(key, k0 + k1, vc, vc, ring);
    lemma_cong(key, k0 + k1, vl, vl, ring);
    lemma_matmul_mac(
        party_values(d.a, 0), party_values(d.a, 1), party_values(d.b, 0), party_values(d.b, 1),
        party_values(d.c, 0), party_values(d.c, 1), party_values(d.lambda, 0), party_values(d.lambda, 1),
        party_macs(d.a, 0), party_macs(d.a, 1), party_macs(d.b, 0), party_macs(d.b, 1),
        party_macs(d.c, 0), party_macs(d.c, 1), party_macs(d.lambda, 0), party_macs(d.lambda, 1),
        tx, ty, k0, k1, rows, mid, cols, ring, ring, i, j,
    );
}
} // verus!
