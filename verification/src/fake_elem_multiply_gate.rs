//! The dealer's element-wise multiplication gates: a random mask lambda_z, a
//! triple (a, b, c = a * b entry by entry) of random matrices, and the
//! corrections delta_x = a - lambda_x and delta_y = b - lambda_y.
use crate::beaver::{elem_mac_share, elem_share, lemma_elem_beaver, lemma_elem_mac};
use crate::dealer::{lemma_clear_modulus_divides, lemma_two_party_shares, FakeParty};
use crate::fake_gate::{fake_fresh, random_vec, FakeGate, FakeGateData};
use crate::fake_multiply_gate::{dealing_bytes, dealing_shared, party_macs, party_values, write_dealing, MultiplyDealing};
use crate::gate::size_ok;
use crate::linear_algebra::{matrix_elem_multiply, matrix_subtract};
use crate::ring::{cong, lemma_cong, seq_mul};
use crate::share::{modulus, values, Spdz2kShare};
use vstd::prelude::*;

verus! {

/// A dealing for the element-wise product of two matrices of `size`
/// entries: c = a * b entry by entry in Z_{2^K}.
pub open spec fn elem_dealing_ok<S: Spdz2kShare, const N: usize>(d: MultiplyDealing<S, N>, lx: Seq<S::ClearType>, ly: Seq<S::ClearType>, size: int, key: int) -> bool {
    &&& dealing_shared(d, lx, ly, size, size, size, key)
    &&& values(d.c_clear@) == seq_mul(values(d.a_clear@), values(d.b_clear@), modulus::<S::ClearType>())
}

pub struct FakeElemMultiplyGate<S: Spdz2kShare, const N: usize> {
    pub data: FakeGateData<S, N>,
}

impl<S: Spdz2kShare, const N: usize> FakeElemMultiplyGate<S, N> {
    pub fn new(input_x: usize, input_y: usize, dim_row: usize, dim_col: usize) -> (r: Self)
        ensures
            fake_fresh(r.fake_data(), dim_row, dim_col, Some(input_x), Some(input_y)),
    {
        let mut data = FakeGateData::new_with_inputs(input_x, Some(input_y));
        data.dim_row = dim_row;
        data.dim_col = dim_col;
        FakeElemMultiplyGate { data }
    }

    /// Deals a random mask, a random element-wise triple and the
    /// corrections for the inputs' masks.
    pub fn deal(&self, lambda_x: &Vec<S::ClearType>, lambda_y: &Vec<S::ClearType>, party: &FakeParty<S, N>) -> (r: MultiplyDealing<S, N>)
        requires
            party.well_formed(),
            N >= 1,
            size_ok(self.fake_data().dim_row as int, self.fake_data().dim_col as int),
        ensures
            elem_dealing_ok(r, lambda_x@, lambda_y@, self.fake_data().dim_row * self.fake_data().dim_col, party.key()),
    {
        let size = self.data.dim_row * self.data.dim_col;
        let lambda_clear = random_vec::<S::ClearType>(size);
        let lambda = party.generate_all_parties_shares_vec(lambda_clear.as_slice());
        let a_clear = random_vec::<S::ClearType>(size);
        let b_clear = random_vec::<S::ClearType>(size);
        let c_clear = matrix_elem_multiply(a_clear.as_slice(), b_clear.as_slice());
        let a = party.generate_all_parties_shares_vec(a_clear.as_slice());
        let b = party.generate_all_parties_shares_vec(b_clear.as_slice());
        let c = party.generate_all_parties_shares_vec(c_clear.as_slice());
        let delta_x = matrix_subtract(a_clear.as_slice(), lambda_x.as_slice());
        let delta_y = matrix_subtract(b_clear.as_slice(), lambda_y.as_slice());
        MultiplyDealing { lambda_clear, lambda, a_clear, b_clear, c_clear, a, b, c, delta_x, delta_y }
    }

    /// Deals and writes everything an element-wise product gate reads; the
    /// mask becomes this gate's mask.
    pub fn do_run_offline(&mut self, lambda_x: &Vec<S::ClearType>, lambda_y: &Vec<S::ClearType>, party: &mut FakeParty<S, N>)
        requires
            old(party).well_formed(),
            N >= 1,
            size_ok(old(self).fake_data().dim_row as int, old(self).fake_data().dim_col as int),
        ensures
            final(self).fake_data() == (FakeGateData::<S, N> {
                lambda_clear: final(self).fake_data().lambda_clear,
                lambda_shr: final(self).fake_data().lambda_shr,
                lambda_shr_mac: final(self).fake_data().lambda_shr_mac,
                evaluated_offline: true,
                ..old(self).fake_data()
            }),
            final(party).well_formed(),
            final(party).key() == old(party).key(),
            final(party).key_share_values() == old(party).key_share_values(),
            final(party).pending().len() == N,
            exists|d: MultiplyDealing<S, N>|
                #[trigger] elem_dealing_ok(d, lambda_x@, lambda_y@, old(self).fake_data().dim_row * old(self).fake_data().dim_col, old(party).key())
                && d.lambda_clear == final(self).fake_data().lambda_clear
                && d.lambda.value_shares == final(self).fake_data().lambda_shr
                && d.lambda.mac_shares == final(self).fake_data().lambda_shr_mac
                && forall|i: int| 0 <= i < N ==> #[trigger] final(party).pending()[i] == old(party).pending()[i] + dealing_bytes(d, i),
    {
        let d = self.deal(lambda_x, lambda_y, party);
        write_dealing(party, &d);
        let ghost dd = d;
        self.data.lambda_clear = d.lambda_clear;
        self.data.lambda_shr = d.lambda.value_shares;
        self.data.lambda_shr_mac = d.lambda.mac_shares;
        self.data.evaluated_offline = true;
        proof {
            assert(elem_dealing_ok(dd, lambda_x@, lambda_y@, old(self).fake_data().dim_row * old(self).fake_data().dim_col, old(party).key()));
        }
    }
}

impl<S: Spdz2kShare, const N: usize> FakeGate<S, N> for FakeElemMultiplyGate<S, N> {
    closed spec fn fake_data(&self) -> FakeGateData<S, N> {
        self.data
    }

    open spec fn gate_name(&self) -> Seq<char> {
        "FakeElemMultiplyGate"@
    }

    fn name(&self) -> &'static str {
        "FakeElemMultiplyGate"
    }

    fn dim_row(&self) -> usize {
        self.data.dim_row
    }

    fn dim_col(&self) -> usize {
        self.data.dim_col
    }

    fn input_x(&self) -> Option<usize> {
        self.data.input_x
    }

    fn input_y(&self) -> Option<usize> {
        self.data.input_y
    }

    fn lambda_clear(&self) -> &Vec<S::ClearType> {
        &self.data.lambda_clear
    }

    fn lambda_shr(&self) -> &Vec<Vec<S::SemiShrType>> {
        &self.data.lambda_shr
    }

    fn lambda_shr_mac(&self) -> &Vec<Vec<S::SemiShrType>> {
        &self.data.lambda_shr_mac
    }

    fn is_evaluated_offline(&self) -> bool {
        self.data.evaluated_offline
    }
}


/// Law (a dealt element-wise product, two parties): when the two parties
/// compute their Delta_z shares from a dealer's dealing and the opened
/// operands tx and ty, the shares of entry t add up, modulo 2^K, to
/// (tx - a) * (ty - b) + lambda_z, with a, b and lambda_z the dealer's clear
/// values.
pub proof fn lemma_dealt_elem<S: Spdz2kShare, const N: usize>(
    d: MultiplyDealing<S, N>,
    lx: Seq<S::ClearType>,
    ly: Seq<S::ClearType>,
    size: int,
    key: int,
    tx: Seq<int>,
    ty: Seq<int>,
    t: int,
)
    requires
        N == 2,
        elem_dealing_ok(d, lx, ly, size, key),
        0 <= t < size,
        tx.len() == size,
        ty.len() == size,
    ensures
        cong(
            elem_share(party_values(d.a, 0), party_values(d.b, 0), party_values(d.c, 0), party_values(d.lambda, 0), tx, ty, modulus::<S::SemiShrType>(), true)[t]
                + elem_share(party_values(d.a, 1), party_values(d.b, 1), party_values(d.c, 1), party_values(d.lambda, 1), tx, ty, modulus::<S::SemiShrType>(), false)[t],
            (tx[t] - values(d.a_clear@)[t]) * (ty[t] - values(d.b_clear@)[t]) + values(d.lambda_clear@)[t],
            modulus::<S::ClearType>(),
        ),
{
    lemma_clear_modulus_divides::<S>();
    let pm = modulus::<S::ClearType>();
    let ring = modulus::<S::SemiShrType>();
    let a0 = party_values(d.a, 0);
    let a1 = party_values(d.a, 1);
    let b0 = party_values(d.b, 0);
    let b1 = party_values(d.b, 1);
    let c0 = party_values(d.c, 0);
    let c1 = party_values(d.c, 1);
    let l0 = party_values(d.lambda, 0);
    let l1 = party_values(d.lambda, 1);
    let a = values(d.a_clear@)[t];
    let b = values(d.b_clear@)[t];
    assert(d.a.value_shares@[0]@.len() == size && d.a.value_shares@[1]@.len() == size);
    assert(d.b.value_shares@[0]@.len() == size && d.b.value_shares@[1]@.len() == size);
    assert(d.c.value_shares@[0]@.len() == size && d.c.value_shares@[1]@.len() == size);
    assert(d.lambda.value_shares@[0]@.len() == size && d.lambda.value_shares@[1]@.len() == size);
    lemma_two_party_shares::<S>(d.a.value_shares@, d.a.mac_shares@, values(d.a_clear@), key, t);
    lemma_two_party_shares::<S>(d.b.value_shares@, d.b.mac_shares@, values(d.b_clear@), key, t);
    lemma_two_party_shares::<S>(d.c.value_shares@, d.c.mac_shares@, values(d.c_clear@), key, t);
    lemma_two_party_shares::<S>(d.lambda.value_shares@, d.lambda.mac_shares@, values(d.lambda_clear@), key, t);
    // the triple is valid modulo 2^K
    lemma_cong(a0[t] + a1[t], a, b0[t] + b1[t], b, pm);
    crate::ring::lemma_cong_mod(a * b, pm);
    lemma_elem_beaver(a0, a1, b0, b1, c0, c1, l0, l1, tx, ty, ring, pm, t);
    // the operands against the dealer's values
    lemma_cong(tx[t], tx[t], a0[t] + a1[t], a, pm);
    lemma_cong(ty[t], ty[t], b0[t] + b1[t], b, pm);
    lemma_cong(tx[t] - (a0[t] + a1[t]), tx[t] - a, ty[t] - (b0[t] + b1[t]), ty[t] - b, pm);
    let p1 = (tx[t] - (a0[t] + a1[t])) * (ty[t] - (b0[t] + b1[t]));
    lemma_cong(p1, (tx[t] - a) * (ty[t] - b), l0[t] + l1[t], values(d.lambda_clear@)[t], pm);
    assert(p1 + l0[t] + l1[t] == p1 + (l0[t] + l1[t]));
}

/// Law (MAC of a dealt element-wise product, two parties): with the key
/// shares k0 and k1 of the dealer's key, the MAC shares that the two parties
/// compute for entry t add up, modulo 2^(K+S), to (k0 + k1) times the sum of
/// their Delta_z shares.
pub proof fn lemma_dealt_elem_mac<S: Spdz2kShare, const N: usize>(
    d: MultiplyDealing<S, N>,
    lx: Seq<S::ClearType>,
    ly: Seq<S::ClearType>,
    size: int,
    key: int,
    k0: int,
    k1: int,
    tx: Seq<int>,
    ty: Seq<int>,
    t: int,
)
    requires
        N == 2,
        elem_dealing_ok(d, lx, ly, size, key),
        cong(key, k0 + k1, modulus::<S::SemiShrType>()),
        0 <= t < size,
        tx.len() == size,
        ty.len() == size,
    ensures
        cong(
            elem_mac_share(party_macs(d.a, 0), party_macs(d.b, 0), party_macs(d.c, 0), party_macs(d.lambda, 0), tx, ty, k0, modulus::<S::SemiShrType>())[t]
                + elem_mac_share(party_macs(d.a, 1), party_macs(d.b, 1), party_macs(d.c, 1), party_macs(d.lambda, 1), tx, ty, k1, modulus::<S::SemiShrType>())[t],
            (k0 + k1) * (elem_share(party_values(d.a, 0), party_values(d.b, 0), party_values(d.c, 0), party_values(d.lambda, 0), tx, ty, modulus::<S::SemiShrType>(), true)[t]
                + elem_share(party_values(d.a, 1), party_values(d.b, 1), party_values(d.c, 1), party_values(d.lambda, 1), tx, ty, modulus::<S::SemiShrType>(), false)[t]),
            modulus::<S::SemiShrType>(),
        ),
{
    lemma_clear_modulus_divides::<S>();
    let ring = modulus::<S::SemiShrType>();
    assert(ring % ring == 0) by {
        vstd::arithmetic::div_mod::lemma_mod_self_0(ring);
    }
    assert(d.a.value_shares@[0]@.len() == size && d.a.value_shares@[1]@.len() == size);
    assert(d.b.value_shares@[0]@.len() == size && d.b.value_shares@[1]@.len() == size);
    assert(d.c.value_shares@[0]@.len() == size && d.c.value_shares@[1]@.len() == size);
    assert(d.lambda.value_shares@[0]@.len() == size && d.lambda.value_shares@[1]@.len() == size);
    assert(d.a.mac_shares@[0]@.len() == size && d.a.mac_shares@[1]@.len() == size);
    assert(d.b.mac_shares@[0]@.len() == size && d.b.mac_shares@[1]@.len() == size);
    assert(d.c.mac_shares@[0]@.len() == size && d.c.mac_shares@[1]@.len() == size);
    assert(d.lambda.mac_shares@[0]@.len() == size && d.lambda.mac_shares@[1]@.len() == size);
    lemma_two_party_shares::<S>(d.a.value_shares@, d.a.mac_shares@, values(d.a_clear@), key, t);
    lemma_two_party_shares::<S>(d.b.value_shares@, d.b.mac_shares@, values(d.b_clear@), key, t);
    lemma_two_party_shares::<S>(d.c.value_shares@, d.c.mac_shares@, values(d.c_clear@), key, t);
    lemma_two_party_shares::<S>(d.lambda.value_shares@, d.lambda.mac_shares@, values(d.lambda_clear@), key, t);
    let va = party_values(d.a, 0)[t] + party_values(d.a, 1)[t];
    let vb = party_values(d.b, 0)[t] + party_values(d.b, 1)[t];
    let vc = party_values(d.c, 0)[t] + party_values(d.c, 1)[t];
    let vl = party_values(d.lambda, 0)[t] + party_values(d.lambda, 1)[t];
    lemma_cong(key, k0 + k1, va, va, ring);
    lemma_cong(key, k0 + k1, vb, vb, ring);
    lemma_cong(key, k0 + k1, vc, vc, ring);
    lemma_cong(key, k0 + k1, vl, vl, ring);
    lemma_elem_mac(
        party_values(d.a, 0), party_values(d.a, 1), party_values(d.b, 0), party_values(d.b, 1),
        party_values(d.c, 0), party_values(d.c, 1), party_values(d.lambda, 0), party_values(d.lambda, 1),
        party_macs(d.a, 0), party_macs(d.a, 1), party_macs(d.b, 0), party_macs(d.b, 1),
        party_macs(d.c, 0), party_macs(d.c, 1), party_macs(d.lambda, 0), party_macs(d.lambda, 1),
        tx, ty, k0, k1, ring, ring, t,
    );
}
} // verus!
