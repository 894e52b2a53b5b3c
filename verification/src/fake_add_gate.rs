//! The dealer's addition gates: every party's shares of lambda_z are the sums
//! of its shares of lambda_x and lambda_y.
use crate::dealer::FakeParty;
use crate::fake_gate::{fake_fresh, rows_add, FakeGate, FakeGateData};

use crate::linear_algebra::matrix_add;
use crate::ring::seq_add;
use crate::share::{modulus, seq_to_bytes, values, Spdz2kShare};
use vstd::prelude::*;

verus! {

pub struct FakeAddGate<S: Spdz2kShare, const N: usize> {
    pub data: FakeGateData<S, N>,
}

impl<S: Spdz2kShare, const N: usize> FakeAddGate<S, N> {
    pub fn new(input_x: usize, input_y: usize, dim_row: usize, dim_col: usize) -> (r: Self)
        ensures
            fake_fresh(r.fake_data(), dim_row, dim_col, Some(input_x), Some(input_y)),
    {
        let mut data = FakeGateData::new_with_inputs(input_x, Some(input_y));
        data.dim_row = dim_row;
        data.dim_col = dim_col;
        FakeAddGate { data }
    }

    /// Adds the inputs' masks and their shares, party by party, and writes
    /// every party's shares of lambda_z and of its MAC to its file.
    pub fn do_run_offline(
        &mut self,
        x_clear: &Vec<S::ClearType>,
        y_clear: &Vec<S::ClearType>,
        x_shr: &Vec<Vec<S::SemiShrType>>,
        x_mac: &Vec<Vec<S::SemiShrType>>,
        y_shr: &Vec<Vec<S::SemiShrType>>,
        y_mac: &Vec<Vec<S::SemiShrType>>,
        party: &mut FakeParty<S, N>,
    )
        requires
            old(party).well_formed(),
            x_shr@.len() == N,
            x_mac@.len() == N,
            y_shr@.len() == N,
            y_mac@.len() == N,
        ensures
            final(self).fake_data() == (FakeGateData::<S, N> {
                lambda_clear: final(self).fake_data().lambda_clear,
                lambda_shr: final(self).fake_data().lambda_shr,
                lambda_shr_mac: final(self).fake_data().lambda_shr_mac,
                evaluated_offline: true,
                ..old(self).fake_data()
            }),
            values(final(self).fake_data().lambda_clear@) == seq_add(values(x_clear@), values(y_clear@), modulus::<S::ClearType>()),
            final(self).fake_data().lambda_shr@.len() == N,
            final(self).fake_data().lambda_shr_mac@.len() == N,
            forall|i: int| 0 <= i < N ==> values((#[trigger] final(self).fake_data().lambda_shr@[i])@) == seq_add(values(x_shr@[i]@), values(y_shr@[i]@), modulus::<S::SemiShrType>()),
            forall|i: int| 0 <= i < N ==> values((#[trigger] final(self).fake_data().lambda_shr_mac@[i])@) == seq_add(values(x_mac@[i]@), values(y_mac@[i]@), modulus::<S::SemiShrType>()),
            final(party).well_formed(),
            final(party).key() == old(party).key(),
            final(party).key_share_values() == old(party).key_share_values(),
            final(party).pending().len() == N,
            forall|i: int| 0 <= i < N ==> #[trigger] final(party).pending()[i] == old(party).pending()[i]
                + seq_to_bytes(final(self).fake_data().lambda_shr@[i]@)
                + seq_to_bytes(final(self).fake_data().lambda_shr_mac@[i]@),
    {
        let shr = rows_add(x_shr, y_shr);
        let mac = rows_add(x_mac, y_mac);
        party.write_shares_to_all_parties(&shr);
        party.write_shares_to_all_parties(&mac);
        self.data.lambda_clear = matrix_add(x_clear.as_slice(), y_clear.as_slice());
        self.data.lambda_shr = shr;
        self.data.lambda_shr_mac = mac;
        self.data.evaluated_offline = true;
    }
}

impl<S: Spdz2kShare, const N: usize> FakeGate<S, N> for FakeAddGate<S, N> {
    closed spec fn fake_data(&self) -> FakeGateData<S, N> {
        self.data
    }

    open spec fn gate_name(&self) -> Seq<char> {
        "FakeAddGate"@
    }

    fn name(&self) -> &'static str {
        "FakeAddGate"
    }

    fn dim_row(&self) -> usize {
        self.data.dim_row
    }

    fn dim_col(&self) -> usize {
        self.data.dim_col
    }

    fn input_x(&self) -> Option<usize> {
        self.data.input_x
    }

    fn input_y(&self) -> Option<usize> {
        self.data.input_y
    }

    fn lambda_clear(&self) -> &Vec<S::ClearType> {
        &self.data.lambda_clear
    }

    fn lambda_shr(&self) -> &Vec<Vec<S::SemiShrType>> {
        &self.data.lambda_shr
    }

    fn lambda_shr_mac(&self) -> &Vec<Vec<S::SemiShrType>> {
        &self.data.lambda_shr_mac
    }

    fn is_evaluated_offline(&self) -> bool {
        self.data.evaluated_offline
    }
}

} // verus!
