//! The dealer's gates adding a public constant: the mask is that of the input.

use crate::fake_gate::{copy_rows, fake_fresh, FakeGate, FakeGateData};

use crate::share::{copy_elems, Spdz2kShare};
use vstd::prelude::*;

verus! {

pub struct FakeAddConstantGate<S: Spdz2kShare, const N: usize> {
    pub data: FakeGateData<S, N>,
    constant: S::ClearType,
}

impl<S: Spdz2kShare, const N: usize> FakeAddConstantGate<S, N> {
    pub closed spec fn constant_spec(&self) -> S::ClearType {
        self.constant
    }

    pub fn new(input_x: usize, constant: S::ClearType, dim_row: usize, dim_col: usize) -> (r: Self)
        ensures
            fake_fresh(r.fake_data(), dim_row, dim_col, Some(input_x), None),
            r.constant_spec() == constant,
    {
        let mut data = FakeGateData::new_with_inputs(input_x, None);
        data.dim_row = dim_row;
        data.dim_col = dim_col;
        FakeAddConstantGate { data, constant }
    }

    /// Takes the input's mask and shares; nothing is written.
    pub fn do_run_offline(&mut self, x_clear: &Vec<S::ClearType>, x_shr: &Vec<Vec<S::SemiShrType>>, x_mac: &Vec<Vec<S::SemiShrType>>)
        ensures
            final(self).constant_spec() == old(self).constant_spec(),
            final(self).fake_data() == (FakeGateData::<S, N> {
                lambda_clear: final(self).fake_data().lambda_clear,
                lambda_shr: final(self).fake_data().lambda_shr,
                lambda_shr_mac: final(self).fake_data().lambda_shr_mac,
                evaluated_offline: true,
                ..old(self).fake_data()
            }),
            final(self).fake_data().lambda_clear@ == x_clear@,
            final(self).fake_data().lambda_shr@.len() == x_shr@.len(),
            final(self).fake_data().lambda_shr_mac@.len() == x_mac@.len(),
            forall|i: int| 0 <= i < x_shr@.len() ==> (#[trigger] final(self).fake_data().lambda_shr@[i])@ == x_shr@[i]@,
            forall|i: int| 0 <= i < x_mac@.len() ==> (#[trigger] final(self).fake_data().lambda_shr_mac@[i])@ == x_mac@[i]@,
    {
        self.data.lambda_clear = copy_elems(x_clear.as_slice());
        self.data.lambda_shr = copy_rows(x_shr);
        self.data.lambda_shr_mac = copy_rows(x_mac);
        self.data.evaluated_offline = true;
    }
}

impl<S: Spdz2kShare, const N: usize> FakeGate<S, N> for FakeAddConstantGate<S, N> {
    closed spec fn fake_data(&self) -> FakeGateData<S, N> {
        self.data
    }

    open spec fn gate_name(&self) -> Seq<char> {
        "FakeAddConstantGate"@
    }

    fn name(&self) -> &'static str {
        "FakeAddConstantGate"
    }

    fn dim_row(&self) -> usize {
        self.data.dim_row
    }

    fn dim_col(&self) -> usize {
        self.data.dim_col
    }

    fn input_x(&self) -> Option<usize> {
        self.data.input_x
    }

    fn input_y(&self) -> Option<usize> {
        self.data.input_y
    }

    fn lambda_clear(&self) -> &Vec<S::ClearType> {
        &self.data.lambda_clear
    }

    fn lambda_shr(&self) -> &Vec<Vec<S::SemiShrType>> {
        &self.data.lambda_shr
    }

    fn lambda_shr_mac(&self) -> &Vec<Vec<S::SemiShrType>> {
        &self.data.lambda_shr_mac
    }

    fn is_evaluated_offline(&self) -> bool {
        self.data.evaluated_offline
    }
}

} // verus!
