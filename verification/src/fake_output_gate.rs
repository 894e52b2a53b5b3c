//! The dealer's output gates: nothing is dealt.

use crate::fake_gate::{fake_fresh, FakeGate, FakeGateData};

use crate::share::Spdz2kShare;
use vstd::prelude::*;

verus! {

pub struct FakeOutputGate<S: Spdz2kShare, const N: usize> {
    pub data: FakeGateData<S, N>,
}

impl<S: Spdz2kShare, const N: usize> FakeOutputGate<S, N> {
    pub fn new(input_x: usize, dim_row: usize, dim_col: usize) -> (r: Self)
        ensures
            fake_fresh(r.fake_data(), dim_row, dim_col, Some(input_x), None),
    {
        let mut data = FakeGateData::new_with_inputs(input_x, None);
        data.dim_row = dim_row;
        data.dim_col = dim_col;
        FakeOutputGate { data }
    }

    /// Nothing is dealt; this gate is marked as done.
    pub fn do_run_offline(&mut self)
        ensures
            final(self).fake_data() == (FakeGateData::<S, N> { evaluated_offline: true, ..old(self).fake_data() }),
    {
        self.data.evaluated_offline = true;
    }
}

impl<S: Spdz2kShare, const N: usize> FakeGate<S, N> for FakeOutputGate<S, N> {
    closed spec fn fake_data(&self) -> FakeGateData<S, N> {
        self.data
    }

    open spec fn gate_name(&self) -> Seq<char> {
        "FakeOutputGate"@
    }

    fn name(&self) -> &'static str {
        "FakeOutputGate"
    }

    fn dim_row(&self) -> usize {
        self.data.dim_row
    }

    fn dim_col(&self) -> usize {
        self.data.dim_col
    }

    fn input_x(&self) -> Option<usize> {
        self.data.input_x
    }

    fn input_y(&self) -> Option<usize> {
        self.data.input_y
    }

    fn lambda_clear(&self) -> &Vec<S::ClearType> {
        &self.data.lambda_clear
    }

    fn lambda_shr(&self) -> &Vec<Vec<S::SemiShrType>> {
        &self.data.lambda_shr
    }

    fn lambda_shr_mac(&self) -> &Vec<Vec<S::SemiShrType>> {
        &self.data.lambda_shr_mac
    }

    fn is_evaluated_offline(&self) -> bool {
        self.data.evaluated_offline
    }
}

} // verus!
