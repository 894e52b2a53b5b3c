//! Subtraction gates: Delta_z = Delta_x - Delta_y, with the mask
//! lambda_z = lambda_x - lambda_y; they read no preprocessing data.
use crate::gate::{fresh, Gate, GateData};
use crate::linear_algebra::matrix_subtract;
use crate::ring::seq_sub;
use crate::share::{modulus, values, Spdz2kShare};
use vstd::prelude::*;

verus! {

pub struct SubtractGate<S: Spdz2kShare> {
    pub data: GateData<S>,
}

impl<S: Spdz2kShare> SubtractGate<S> {
    /// A gate subtracting the output of `input_y` from that of `input_x`, both
    /// dim_row x dim_col.
    pub fn new(input_x: usize, input_y: usize, dim_row: usize, dim_col: usize) -> (r: Self)
        ensures
            fresh(r.gate_data(), dim_row, dim_col, Some(input_x), Some(input_y)),
    {
        let mut data = GateData::new_with_inputs(input_x, Some(input_y));
        data.dim_row = dim_row;
        data.dim_col = dim_col;
        SubtractGate { data }
    }

    /// Nothing is read from the file: the shares of lambda_z and of its MAC
    /// are those of the inputs' masks subtracted, lambda_x - lambda_y.
    pub fn do_read_offline(
        &mut self,
        x_shr: &Vec<S::SemiShrType>,
        x_mac: &Vec<S::SemiShrType>,
        y_shr: &Vec<S::SemiShrType>,
        y_mac: &Vec<S::SemiShrType>,
    )
        ensures
            final(self).gate_data() == (GateData::<S> {
                lambda_shr: final(self).gate_data().lambda_shr,
                lambda_shr_mac: final(self).gate_data().lambda_shr_mac,
                read_offline: true,
                ..old(self).gate_data()
            }),
            values(final(self).gate_data().lambda_shr@) == seq_sub(values(x_shr@), values(y_shr@), modulus::<S::SemiShrType>()),
            values(final(self).gate_data().lambda_shr_mac@) == seq_sub(values(x_mac@), values(y_mac@), modulus::<S::SemiShrType>()),
    {
        self.data.lambda_shr = matrix_subtract(x_shr.as_slice(), y_shr.as_slice());
        self.data.lambda_shr_mac = matrix_subtract(x_mac.as_slice(), y_mac.as_slice());
        self.data.read_offline = true;
    }

    /// Delta_z = Delta_x - Delta_y.
    pub fn do_run_online(&mut self, delta_x: &[S::SemiShrType], delta_y: &[S::SemiShrType])
        ensures
            final(self).gate_data() == (GateData::<S> {
                delta_clear: final(self).gate_data().delta_clear,
                evaluated_online: true,
                ..old(self).gate_data()
            }),
            values(final(self).gate_data().delta_clear@) == seq_sub(values(delta_x@), values(delta_y@), modulus::<S::SemiShrType>()),
    {
        self.data.delta_clear = matrix_subtract(delta_x, delta_y);
        self.data.evaluated_online = true;
    }
}

impl<S: Spdz2kShare> Gate<S> for SubtractGate<S> {
    closed spec fn gate_data(&self) -> GateData<S> {
        self.data
    }

    open spec fn gate_name(&self) -> Seq<char> {
        "SubtractGate"@
    }

    fn name(&self) -> &'static str {
        "SubtractGate"
    }

    fn dim_row(&self) -> usize {
        self.data.dim_row
    }

    fn dim_col(&self) -> usize {
        self.data.dim_col
    }

    fn lambda_shr(&self) -> &Vec<S::SemiShrType> {
        &self.data.lambda_shr
    }

    fn lambda_shr_mac(&self) -> &Vec<S::SemiShrType> {
        &self.data.lambda_shr_mac
    }

    fn delta_clear(&self) -> &Vec<S::SemiShrType> {
        &self.data.delta_clear
    }

    fn input_x(&self) -> Option<usize> {
        self.data.input_x
    }

    fn input_y(&self) -> Option<usize> {
        self.data.input_y
    }

    fn is_read_offline(&self) -> bool {
        self.data.read_offline
    }

    fn is_evaluated_online(&self) -> bool {
        self.data.evaluated_online
    }
}

} // verus!
