//! What every gate of an online circuit holds: its dimensions, the party's
//! shares of the mask lambda and of its MAC, the public masked value
//! Delta = x + lambda, and the handles of its input gates.
use crate::share::{decoded, ShareElement, Spdz2kShare};
use vstd::prelude::*;

verus! {

pub struct GateData<S: Spdz2kShare> {
    pub dim_row: usize,
    pub dim_col: usize,
    pub lambda_shr: Vec<S::SemiShrType>,
    pub lambda_shr_mac: Vec<S::SemiShrType>,
    pub delta_clear: Vec<S::SemiShrType>,
    /// Handle (index in the circuit) of the first input gate.
    pub input_x: Option<usize>,
    /// Handle of the second input gate.
    pub input_y: Option<usize>,
    pub read_offline: bool,
    pub evaluated_online: bool,
}

/// A gate with nothing read or computed yet.
pub open spec fn fresh<S: Spdz2kShare>(d: GateData<S>, dim_row: usize, dim_col: usize, input_x: Option<usize>, input_y: Option<usize>) -> bool {
    &&& d.dim_row == dim_row
    &&& d.dim_col == dim_col
    &&& d.lambda_shr@.len() == 0
    &&& d.lambda_shr_mac@.len() == 0
    &&& d.delta_clear@.len() == 0
    &&& d.input_x == input_x
    &&& d.input_y == input_y
    &&& !d.read_offline
    &&& !d.evaluated_online
}

impl<S: Spdz2kShare> GateData<S> {
    pub fn new_with_dims(dim_row: usize, dim_col: usize) -> (r: Self)
        ensures
            fresh(r, dim_row, dim_col, None, None),
    {
        GateData {
            dim_row,
            dim_col,
            lambda_shr: Vec::new(),
            lambda_shr_mac: Vec::new(),
            delta_clear: Vec::new(),
            input_x: None,
            input_y: None,
            read_offline: false,
            evaluated_online: false,
        }
    }

    /// A 1 x 1 gate reading from the given inputs.
    pub fn new_with_inputs(input_x: usize, input_y: Option<usize>) -> (r: Self)
        ensures
            fresh(r, 1, 1, Some(input_x), input_y),
    {
        GateData {
            dim_row: 1,
            dim_col: 1,
            lambda_shr: Vec::new(),
            lambda_shr_mac: Vec::new(),
            delta_clear: Vec::new(),
            input_x: Some(input_x),
            input_y,
            read_offline: false,
            evaluated_online: false,
        }
    }
}

/// What a party does next in the online phase of a gate: nothing (this gate
/// is evaluated), send bytes (then this gate is evaluated), receive a number
/// of bytes, or send bytes and receive as many from the other party.
pub enum Action {
    Done,
    Send(Vec<u8>),
    Receive(usize),
    Exchange(Vec<u8>),
}

/// The common interface of this gates.
pub trait Gate<S: Spdz2kShare> {
    /// The common state of this gate.
    spec fn gate_data(&self) -> GateData<S>;

    /// The name of this gate's kind.
    spec fn gate_name(&self) -> Seq<char>;

    fn name(&self) -> (r: &'static str)
        ensures
            r@ == self.gate_name(),
    ;

    fn dim_row(&self) -> (r: usize)
        ensures
            r == self.gate_data().dim_row,
    ;

    fn dim_col(&self) -> (r: usize)
        ensures
            r == self.gate_data().dim_col,
    ;

    fn lambda_shr(&self) -> (r: &Vec<S::SemiShrType>)
        ensures
            r@ == self.gate_data().lambda_shr@,
    ;

    fn lambda_shr_mac(&self) -> (r: &Vec<S::SemiShrType>)
        ensures
            r@ == self.gate_data().lambda_shr_mac@,
    ;

    fn delta_clear(&self) -> (r: &Vec<S::SemiShrType>)
        ensures
            r@ == self.gate_data().delta_clear@,
    ;

    fn input_x(&self) -> (r: Option<usize>)
        ensures
            r == self.gate_data().input_x,
    ;

    fn input_y(&self) -> (r: Option<usize>)
        ensures
            r == self.gate_data().input_y,
    ;

    fn is_read_offline(&self) -> (r: bool)
        ensures
            r == self.gate_data().read_offline,
    ;

    fn is_evaluated_online(&self) -> (r: bool)
        ensures
            r == self.gate_data().evaluated_online,
    ;
}

/// Gates of this size can be held with their byte encodings: the encoding
/// of every matrix of this gate fits in memory.
pub open spec fn size_ok(dim_row: int, dim_col: int) -> bool {
    dim_row * dim_col * 16 <= usize::MAX
}

/// The pieces of preprocessing data have the byte lengths of the layout.
pub open spec fn pieces_match(pieces: Seq<Vec<u8>>, layout: Seq<usize>) -> bool {
    &&& pieces.len() == layout.len()
    &&& forall|k: int| 0 <= k < layout.len() ==> #[trigger] pieces[k]@.len() == layout[k]
}

/// The number of bytes of `n` elements of `T`.
pub open spec fn bytes_of<T: ShareElement>(n: int) -> int {
    n * (T::width() as int / 8)
}

/// The encoding of `n` elements fits in memory when `n * 16` does.
pub proof fn lemma_bytes_of_fits<T: ShareElement>(n: int)
    requires
        0 <= n,
        n * 16 <= usize::MAX,
    ensures
        0 <= bytes_of::<T>(n) <= n * 16,
        bytes_of::<T>(n) as usize as int == bytes_of::<T>(n),
{
    T::lemma_value_bounds(T::spec_from_bytes(Seq::<u8>::empty()));
    let w = T::width() as int / 8;
    assert(0 <= n * w <= n * 16) by (nonlinear_arith)
        requires
            0 <= n,
            0 <= w <= 16,
    ;
}

/// `n * T::byte_size()`, for counts whose encoding fits in memory.
pub fn byte_len<T: ShareElement>(n: usize) -> (r: usize)
    requires
        n * 16 <= usize::MAX,
    ensures
        r == bytes_of::<T>(n as int),
{
    let z = T::zero();
    proof {
        T::lemma_value_bounds(z);
    }
    let b = T::byte_size();
    assert(n * b <= n * 16) by (nonlinear_arith)
        requires
            b <= 16,
    ;
    n * b
}

/// Decodes a piece of preprocessing data: whole elements of `T`.
pub fn read_piece<T: ShareElement>(bytes: &Vec<u8>, n: usize) -> (r: Vec<T>)
    requires
        bytes@.len() == bytes_of::<T>(n as int),
    ensures
        r@ == decoded::<T>(bytes@),
        r@.len() == n,
{
    let z = T::zero();
    proof {
        T::lemma_value_bounds(z);
        let w = T::width() as int / 8;
        assert(n * w % w == 0 && n * w / w == n) by (nonlinear_arith)
            requires
                w > 0,
        ;
    }
    crate::share::vec_from_bytes(bytes.as_slice())
}

} // verus!
