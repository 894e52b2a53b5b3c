//! The dealer's multiplication gates for fixed-point values: the dealing of a
//! product, then the truncated mask lambda' = lambda_z / 2^FRACTION_BITS,
//! shared, which becomes this gate's mask.
use crate::dealer::{shares_hide, FakeParty};
use crate::fake_gate::{fake_fresh, FakeGate, FakeGateData};
use crate::fake_multiply_gate::{dealing_bytes, matmul_dealing_ok, FakeMultiplyGate, MultiplyDealing};
use crate::fixed_point::{truncate_clear_vec, truncated};
use crate::gate::size_ok;
use crate::share::{seq_to_bytes, values, Spdz2kShare};
use vstd::prelude::*;

verus! {

pub struct FakeMultiplyTruncGate<S: Spdz2kShare, const N: usize> {
    inner: FakeMultiplyGate<S, N>,
}

impl<S: Spdz2kShare, const N: usize> FakeMultiplyTruncGate<S, N> {
    pub closed spec fn mid(&self) -> usize {
        self.inner.mid()
    }

    pub fn new(input_x: usize, input_y: usize, dim_row: usize, dim_mid: usize, dim_col: usize) -> (r: Self)
        ensures
            fake_fresh(r.fake_data(), dim_row, dim_col, Some(input_x), Some(input_y)),
            r.mid() == dim_mid,
    {
        FakeMultiplyTruncGate { inner: FakeMultiplyGate::new(input_x, input_y, dim_row, dim_mid, dim_col) }
    }

    pub fn get_dim_mid(&self) -> (r: usize)
        ensures
            r == self.mid(),
    {
        self.inner.get_dim_mid()
    }

    /// The dealing of the product, then the shares of the truncated mask and
    /// of its MAC; the truncated mask becomes this gate's mask.
    pub fn do_run_offline(&mut self, lambda_x: &Vec<S::ClearType>, lambda_y: &Vec<S::ClearType>, party: &mut FakeParty<S, N>)
        requires
            old(party).well_formed(),
            N >= 1,
            size_ok(old(self).fake_data().dim_row as int, old(self).mid() as int),
            size_ok(old(self).mid() as int, old(self).fake_data().dim_col as int),
            size_ok(old(self).fake_data().dim_row as int, old(self).fake_data().dim_col as int),
        ensures
            final(self).mid() == old(self).mid(),
            final(self).fake_data() == (FakeGateData::<S, N> {
                lambda_clear: final(self).fake_data().lambda_clear,
                lambda_shr: final(self).fake_data().lambda_shr,
                lambda_shr_mac: final(self).fake_data().lambda_shr_mac,
                evaluated_offline: true,
                ..old(self).fake_data()
            }),
            shares_hide::<S>(final(self).fake_data().lambda_shr@, final(self).fake_data().lambda_shr_mac@, values(final(self).fake_data().lambda_clear@), old(party).key(), N as int),
            final(party).well_formed(),
            final(party).key() == old(party).key(),
            final(party).key_share_values() == old(party).key_share_values(),
            final(party).pending().len() == N,
            exists|d: MultiplyDealing<S, N>|
                #[trigger] matmul_dealing_ok(d, lambda_x@, lambda_y@, old(self).fake_data().dim_row as int, old(self).mid() as int, old(self).fake_data().dim_col as int, old(party).key())
                && values(final(self).fake_data().lambda_clear@) == values(d.lambda_clear@).map_values(|v: int| truncated(v))
                && forall|i: int| 0 <= i < N ==> #[trigger] final(party).pending()[i] == old(party).pending()[i] + dealing_bytes(d, i)
                    + seq_to_bytes(final(self).fake_data().lambda_shr@[i]@) + seq_to_bytes(final(self).fake_data().lambda_shr_mac@[i]@),
    {
        let ghost p0 = party.pending();
        self.inner.do_run_offline_base(lambda_x, lambda_y, party);
        let ghost p1 = party.pending();
        let lambda_prime_clear = truncate_clear_vec(self.inner.lambda_clear().as_slice());
        let shares = party.generate_all_parties_shares_vec(lambda_prime_clear.as_slice());
        party.write_shares_to_all_parties(&shares.value_shares);
        party.write_shares_to_all_parties(&shares.mac_shares);
        self.inner.replace_lambda(lambda_prime_clear, shares.value_shares, shares.mac_shares);
    }
}

impl<S: Spdz2kShare, const N: usize> FakeGate<S, N> for FakeMultiplyTruncGate<S, N> {
    closed spec fn fake_data(&self) -> FakeGateData<S, N> {
        self.inner.fake_data()
    }

    open spec fn gate_name(&self) -> Seq<char> {
        "FakeMultiplyTruncGate"@
    }

    fn name(&self) -> &'static str {
        "FakeMultiplyTruncGate"
    }

    fn dim_row(&self) -> usize {
        self.inner.dim_row()
    }

    fn dim_col(&self) -> usize {
        self.inner.dim_col()
    }

    fn input_x(&self) -> Option<usize> {
        self.inner.input_x()
    }

    fn input_y(&self) -> Option<usize> {
        self.inner.input_y()
    }

    fn lambda_clear(&self) -> &Vec<S::ClearType> {
        self.inner.lambda_clear()
    }

    fn lambda_shr(&self) -> &Vec<Vec<S::SemiShrType>> {
        self.inner.lambda_shr()
    }

    fn lambda_shr_mac(&self) -> &Vec<Vec<S::SemiShrType>> {
        self.inner.lambda_shr_mac()
    }

    fn is_evaluated_offline(&self) -> bool {
        self.inner.is_evaluated_offline()
    }
}

} // verus!
