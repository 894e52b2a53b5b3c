//! Addition gates: Delta_z = Delta_x + Delta_y, with lambda_z = lambda_x + lambda_y
//! from the preprocessing.
use crate::gate::{byte_len, bytes_of, fresh, lemma_bytes_of_fits, pieces_match, read_piece, size_ok, Gate, GateData};
use crate::linear_algebra::matrix_add;
use crate::ring::seq_add;
use crate::share::{decoded, modulus, seq_to_bytes, values, Spdz2kShare};
use vstd::prelude::*;

verus! {

pub struct AddGate<S: Spdz2kShare> {
    pub data: GateData<S>,
}

impl<S: Spdz2kShare> AddGate<S> {
    /// A gate adding the outputs of `input_x` and `input_y`, both
    /// dim_row x dim_col.
    pub fn new(input_x: usize, input_y: usize, dim_row: usize, dim_col: usize) -> (r: Self)
        ensures
            fresh(r.gate_data(), dim_row, dim_col, Some(input_x), Some(input_y)),
    {
        let mut data = GateData::new_with_inputs(input_x, Some(input_y));
        data.dim_row = dim_row;
        data.dim_col = dim_col;
        AddGate { data }
    }

    /// The byte lengths of the pieces this gate reads: the shares of the mask
    /// and of its MAC.
    pub fn offline_layout(&self) -> (r: Vec<usize>)
        requires
            size_ok(self.gate_data().dim_row as int, self.gate_data().dim_col as int),
        ensures
            r@ == seq![bytes_of::<S::SemiShrType>(self.gate_data().dim_row * self.gate_data().dim_col) as usize; 2],
    {
        let b = byte_len::<S::SemiShrType>(self.data.dim_row * self.data.dim_col);
        let r = vec![b, b];
        assert(r@ =~= seq![b; 2]);
        r
    }

    /// Takes the pieces of `offline_layout`, in order.
    pub fn do_read_offline(&mut self, pieces: &Vec<Vec<u8>>)
        requires
            size_ok(old(self).gate_data().dim_row as int, old(self).gate_data().dim_col as int),
            pieces_match(pieces@, seq![bytes_of::<S::SemiShrType>(old(self).gate_data().dim_row * old(self).gate_data().dim_col) as usize; 2]),
        ensures
            final(self).gate_data() == (GateData::<S> {
                lambda_shr: final(self).gate_data().lambda_shr,
                lambda_shr_mac: final(self).gate_data().lambda_shr_mac,
                read_offline: true,
                ..old(self).gate_data()
            }),
            final(self).gate_data().lambda_shr@ == decoded::<S::SemiShrType>(pieces@[0]@),
            final(self).gate_data().lambda_shr_mac@ == decoded::<S::SemiShrType>(pieces@[1]@),
            final(self).gate_data().lambda_shr@.len() == old(self).gate_data().dim_row * old(self).gate_data().dim_col,
            final(self).gate_data().lambda_shr_mac@.len() == old(self).gate_data().dim_row * old(self).gate_data().dim_col,
    {
        let size = self.data.dim_row * self.data.dim_col;
        proof {
            lemma_bytes_of_fits::<S::SemiShrType>(size as int);
        }
        self.data.lambda_shr = read_piece::<S::SemiShrType>(&pieces[0], size);
        self.data.lambda_shr_mac = read_piece::<S::SemiShrType>(&pieces[1], size);
        self.data.read_offline = true;
    }

    /// Delta_z = Delta_x + Delta_y.
    pub fn do_run_online(&mut self, delta_x: &[S::SemiShrType], delta_y: &[S::SemiShrType])
        ensures
            final(self).gate_data() == (GateData::<S> {
                delta_clear: final(self).gate_data().delta_clear,
                evaluated_online: true,
                ..old(self).gate_data()
            }),
            values(final(self).gate_data().delta_clear@) == seq_add(values(delta_x@), values(delta_y@), modulus::<S::SemiShrType>()),
    {
        self.data.delta_clear = matrix_add(delta_x, delta_y);
        self.data.evaluated_online = true;
    }
}

impl<S: Spdz2kShare> Gate<S> for AddGate<S> {
    closed spec fn gate_data(&self) -> GateData<S> {
        self.data
    }

    open spec fn gate_name(&self) -> Seq<char> {
        "AddGate"@
    }

    fn name(&self) -> &'static str {
        "AddGate"
    }

    fn dim_row(&self) -> usize {
        self.data.dim_row
    }

    fn dim_col(&self) -> usize {
        self.data.dim_col
    }

    fn lambda_shr(&self) -> &Vec<S::SemiShrType> {
        &self.data.lambda_shr
    }

    fn lambda_shr_mac(&self) -> &Vec<S::SemiShrType> {
        &self.data.lambda_shr_mac
    }

    fn delta_clear(&self) -> &Vec<S::SemiShrType> {
        &self.data.delta_clear
    }

    fn input_x(&self) -> Option<usize> {
        self.data.input_x
    }

    fn input_y(&self) -> Option<usize> {
        self.data.input_y
    }

    fn is_read_offline(&self) -> bool {
        self.data.read_offline
    }

    fn is_evaluated_online(&self) -> bool {
        self.data.evaluated_online
    }
}


/// Law (the preprocessing file of an addition gate): the bytes the dealer
/// writes for party i, its shares of the mask and of its MAC, are two pieces
/// of the length an addition gate reads for each, and decode to those shares.
pub proof fn lemma_add_file_agrees<S: Spdz2kShare, const N: usize>(rows: int, cols: int, fd: crate::fake_gate::FakeGateData<S, N>, i: int)
    requires
        0 <= i < N,
        0 <= rows && 0 <= cols,
        size_ok(rows, cols),
        fd.lambda_shr@.len() == N,
        fd.lambda_shr_mac@.len() == N,
        fd.lambda_shr@[i]@.len() == rows * cols,
        fd.lambda_shr_mac@[i]@.len() == rows * cols,
    ensures
        seq![seq_to_bytes(fd.lambda_shr@[i]@), seq_to_bytes(fd.lambda_shr_mac@[i]@)].flatten_alt() == seq_to_bytes(fd.lambda_shr@[i]@) + seq_to_bytes(fd.lambda_shr_mac@[i]@),
        seq_to_bytes(fd.lambda_shr@[i]@).len() == bytes_of::<S::SemiShrType>(rows * cols) as usize,
        seq_to_bytes(fd.lambda_shr_mac@[i]@).len() == bytes_of::<S::SemiShrType>(rows * cols) as usize,
        decoded::<S::SemiShrType>(seq_to_bytes(fd.lambda_shr@[i]@)) == fd.lambda_shr@[i]@,
        decoded::<S::SemiShrType>(seq_to_bytes(fd.lambda_shr_mac@[i]@)) == fd.lambda_shr_mac@[i]@,
{
    let p = seq![seq_to_bytes(fd.lambda_shr@[i]@), seq_to_bytes(fd.lambda_shr_mac@[i]@)];
    crate::share::lemma_decoded_roundtrip(fd.lambda_shr@[i]@);
    crate::share::lemma_decoded_roundtrip(fd.lambda_shr_mac@[i]@);
    assert(0 <= rows * cols) by (nonlinear_arith)
        requires
            0 <= rows,
            0 <= cols,
    ;
    crate::gate::lemma_bytes_of_fits::<S::SemiShrType>(rows * cols);
    reveal_with_fuel(Seq::<Seq<u8>>::flatten_alt, 3);
    assert(p.drop_last().drop_last().len() == 0);
    assert(p.flatten_alt() =~= seq_to_bytes(fd.lambda_shr@[i]@) + seq_to_bytes(fd.lambda_shr_mac@[i]@));
}
} // verus!
