//! Gates adding a public constant: Delta_z = Delta_x + c, lambda_z = lambda_x.
use crate::gate::{fresh, Gate, GateData};
use crate::linear_algebra::matrix_add_constant;
use crate::ring::seq_add_const;
use crate::share::{copy_elems, lemma_widen_keeps, modulus, values, widen, ShareElement, Spdz2kShare};
use vstd::prelude::*;

verus! {

pub struct AddConstantGate<S: Spdz2kShare> {
    pub data: GateData<S>,
    constant: S::ClearType,
}

impl<S: Spdz2kShare> AddConstantGate<S> {
    pub closed spec fn constant_spec(&self) -> S::ClearType {
        self.constant
    }

    /// A gate adding `constant` to every entry of the dim_row x dim_col
    /// output of `input_x`.
    pub fn new(input_x: usize, constant: S::ClearType, dim_row: usize, dim_col: usize) -> (r: Self)
        ensures
            fresh(r.gate_data(), dim_row, dim_col, Some(input_x), None),
            r.constant_spec() == constant,
    {
        let mut data = GateData::new_with_inputs(input_x, None);
        data.dim_row = dim_row;
        data.dim_col = dim_col;
        AddConstantGate { data, constant }
    }

    /// The mask of the input is the mask of the output.
    pub fn do_read_offline(&mut self, input_lambda_shr: &Vec<S::SemiShrType>, input_lambda_shr_mac: &Vec<S::SemiShrType>)
        ensures
            final(self).constant_spec() == old(self).constant_spec(),
            final(self).gate_data() == (GateData::<S> {
                lambda_shr: final(self).gate_data().lambda_shr,
                lambda_shr_mac: final(self).gate_data().lambda_shr_mac,
                read_offline: true,
                ..old(self).gate_data()
            }),
            final(self).gate_data().lambda_shr@ == input_lambda_shr@,
            final(self).gate_data().lambda_shr_mac@ == input_lambda_shr_mac@,
    {
        self.data.lambda_shr = copy_elems(input_lambda_shr.as_slice());
        self.data.lambda_shr_mac = copy_elems(input_lambda_shr_mac.as_slice());
        self.data.read_offline = true;
    }

    /// Delta_z = Delta_x + c, c taken into the share ring.
    pub fn do_run_online(&mut self, delta_x: &[S::SemiShrType])
        ensures
            final(self).constant_spec() == old(self).constant_spec(),
            final(self).gate_data() == (GateData::<S> {
                delta_clear: final(self).gate_data().delta_clear,
                evaluated_online: true,
                ..old(self).gate_data()
            }),
            values(final(self).gate_data().delta_clear@) == seq_add_const(values(delta_x@), old(self).constant_spec().value(), modulus::<S::SemiShrType>()),
    {
        proof {
            S::lemma_widths();
            lemma_widen_keeps::<S::ClearType, S::SemiShrType>(self.constant);
        }
        let constant_wide = widen::<S::ClearType, S::SemiShrType>(self.constant);
        self.data.delta_clear = matrix_add_constant(delta_x, constant_wide);
        self.data.evaluated_online = true;
    }
}

impl<S: Spdz2kShare> Gate<S> for AddConstantGate<S> {
    closed spec fn gate_data(&self) -> GateData<S> {
        self.data
    }

    open spec fn gate_name(&self) -> Seq<char> {
        "AddConstantGate"@
    }

    fn name(&self) -> &'static str {
        "AddConstantGate"
    }

    fn dim_row(&self) -> usize {
        self.data.dim_row
    }

    fn dim_col(&self) -> usize {
        self.data.dim_col
    }

    fn lambda_shr(&self) -> &Vec<S::SemiShrType> {
        &self.data.lambda_shr
    }

    fn lambda_shr_mac(&self) -> &Vec<S::SemiShrType> {
        &self.data.lambda_shr_mac
    }

    fn delta_clear(&self) -> &Vec<S::SemiShrType> {
        &self.data.delta_clear
    }

    fn input_x(&self) -> Option<usize> {
        self.data.input_x
    }

    fn input_y(&self) -> Option<usize> {
        self.data.input_y
    }

    fn is_read_offline(&self) -> bool {
        self.data.read_offline
    }

    fn is_evaluated_online(&self) -> bool {
        self.data.evaluated_online
    }
}

} // verus!
