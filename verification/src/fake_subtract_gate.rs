//! The dealer's subtraction gates: lambda_z = lambda_x - lambda_y, in the
//! clear and in every party's shares. Nothing is written: the parties'
//! subtraction gates read no preprocessing data.

use crate::fake_gate::{fake_fresh, rows_sub, FakeGate, FakeGateData};
use crate::linear_algebra::matrix_subtract;
use crate::ring::seq_sub;
use crate::share::{modulus, values, Spdz2kShare};
use vstd::prelude::*;

verus! {

pub struct FakeSubtractGate<S: Spdz2kShare, const N: usize> {
    pub data: FakeGateData<S, N>,
}

impl<S: Spdz2kShare, const N: usize> FakeSubtractGate<S, N> {
    pub fn new(input_x: usize, input_y: usize, dim_row: usize, dim_col: usize) -> (r: Self)
        ensures
            fake_fresh(r.fake_data(), dim_row, dim_col, Some(input_x), Some(input_y)),
    {
        let mut data = FakeGateData::new_with_inputs(input_x, Some(input_y));
        data.dim_row = dim_row;
        data.dim_col = dim_col;
        FakeSubtractGate { data }
    }

    /// Subtracts the inputs' masks and shares.
    pub fn do_run_offline(
        &mut self,
        x_clear: &Vec<S::ClearType>,
        x_shr: &Vec<Vec<S::SemiShrType>>,
        x_mac: &Vec<Vec<S::SemiShrType>>,
        y_clear: &Vec<S::ClearType>,
        y_shr: &Vec<Vec<S::SemiShrType>>,
        y_mac: &Vec<Vec<S::SemiShrType>>,
    )
        requires
            x_shr@.len() == N,
            x_mac@.len() == N,
            y_shr@.len() == N,
            y_mac@.len() == N,
        ensures
            final(self).fake_data() == (FakeGateData::<S, N> {
                lambda_clear: final(self).fake_data().lambda_clear,
                lambda_shr: final(self).fake_data().lambda_shr,
                lambda_shr_mac: final(self).fake_data().lambda_shr_mac,
                evaluated_offline: true,
                ..old(self).fake_data()
            }),
            values(final(self).fake_data().lambda_clear@) == seq_sub(values(x_clear@), values(y_clear@), modulus::<S::ClearType>()),
            final(self).fake_data().lambda_shr@.len() == N,
            final(self).fake_data().lambda_shr_mac@.len() == N,
            forall|i: int| 0 <= i < N ==> values((#[trigger] final(self).fake_data().lambda_shr@[i])@) == seq_sub(values(x_shr@[i]@), values(y_shr@[i]@), modulus::<S::SemiShrType>()),
            forall|i: int| 0 <= i < N ==> values((#[trigger] final(self).fake_data().lambda_shr_mac@[i])@) == seq_sub(values(x_mac@[i]@), values(y_mac@[i]@), modulus::<S::SemiShrType>()),
    {
        self.data.lambda_clear = matrix_subtract(x_clear.as_slice(), y_clear.as_slice());
        self.data.lambda_shr = rows_sub(x_shr, y_shr);
        self.data.lambda_shr_mac = rows_sub(x_mac, y_mac);
        self.data.evaluated_offline = true;
    }
}

impl<S: Spdz2kShare, const N: usize> FakeGate<S, N> for FakeSubtractGate<S, N> {
    closed spec fn fake_data(&self) -> FakeGateData<S, N> {
        self.data
    }

    open spec fn gate_name(&self) -> Seq<char> {
        "FakeSubtractGate"@
    }

    fn name(&self) -> &'static str {
        "FakeSubtractGate"
    }

    fn dim_row(&self) -> usize {
        self.data.dim_row
    }

    fn dim_col(&self) -> usize {
        self.data.dim_col
    }

    fn input_x(&self) -> Option<usize> {
        self.data.input_x
    }

    fn input_y(&self) -> Option<usize> {
        self.data.input_y
    }

    fn lambda_clear(&self) -> &Vec<S::ClearType> {
        &self.data.lambda_clear
    }

    fn lambda_shr(&self) -> &Vec<Vec<S::SemiShrType>> {
        &self.data.lambda_shr
    }

    fn lambda_shr_mac(&self) -> &Vec<Vec<S::SemiShrType>> {
        &self.data.lambda_shr_mac
    }

    fn is_evaluated_offline(&self) -> bool {
        self.data.evaluated_offline
    }
}

} // verus!
