//! What every gate of a dealer's circuit holds: its dimensions, the clear
//! mask lambda, every party's shares of lambda and of its MAC, and the
//! handles of its input gates.
use crate::linear_algebra::{matrix_add, matrix_subtract};
use crate::ring::{seq_add, seq_sub};
use crate::share::{copy_elems, fill_random, modulus, values, ShareElement, Spdz2kShare};
use vstd::prelude::*;

verus! {

pub struct FakeGateData<S: Spdz2kShare, const N: usize> {
    pub dim_row: usize,
    pub dim_col: usize,
    pub lambda_clear: Vec<S::ClearType>,
    /// Row i: party i's shares of lambda.
    pub lambda_shr: Vec<Vec<S::SemiShrType>>,
    /// Row i: party i's shares of the MAC of lambda.
    pub lambda_shr_mac: Vec<Vec<S::SemiShrType>>,
    pub input_x: Option<usize>,
    pub input_y: Option<usize>,
    pub evaluated_offline: bool,
}

/// A gate with nothing dealt yet: no mask, and N empty rows of shares.
pub open spec fn fake_fresh<S: Spdz2kShare, const N: usize>(d: FakeGateData<S, N>, dim_row: usize, dim_col: usize, input_x: Option<usize>, input_y: Option<usize>) -> bool {
    &&& d.dim_row == dim_row
    &&& d.dim_col == dim_col
    &&& d.lambda_clear@.len() == 0
    &&& d.lambda_shr@.len() == N
    &&& d.lambda_shr_mac@.len() == N
    &&& forall|i: int| 0 <= i < N ==> (#[trigger] d.lambda_shr@[i])@.len() == 0
    &&& forall|i: int| 0 <= i < N ==> (#[trigger] d.lambda_shr_mac@[i])@.len() == 0
    &&& d.input_x == input_x
    &&& d.input_y == input_y
    &&& !d.evaluated_offline
}

/// N empty rows.
pub fn empty_rows<T>(n: usize) -> (r: Vec<Vec<T>>)
    ensures
        r@.len() == n,
        forall|i: int| 0 <= i < n ==> (#[trigger] r@[i])@.len() == 0,
{
    let mut r: Vec<Vec<T>> = Vec::with_capacity(n);
    for i in 0..n
        invariant
            r@.len() == i,
            forall|j: int| 0 <= j < i ==> (#[trigger] r@[j])@.len() == 0,
    {
        r.push(Vec::new());
    }
    r
}

/// `n` random elements.
pub fn random_vec<T: ShareElement>(n: usize) -> (r: Vec<T>)
    ensures
        r@.len() == n,
{
    let mut r: Vec<T> = Vec::with_capacity(n);
    for i in 0..n
        invariant
            r@.len() == i,
    {
        r.push(T::zero());
    }
    fill_random(&mut r);
    r
}

/// Row-by-row x + y.
pub fn rows_add<T: ShareElement>(x: &Vec<Vec<T>>, y: &Vec<Vec<T>>) -> (r: Vec<Vec<T>>)
    requires
        x@.len() == y@.len(),
    ensures
        r@.len() == x@.len(),
        forall|i: int| 0 <= i < x@.len() ==> values((#[trigger] r@[i])@) == seq_add(values(x@[i]@), values(y@[i]@), modulus::<T>()),
{
    let n = x.len();
    let mut r: Vec<Vec<T>> = Vec::with_capacity(n);
    for i in 0..n
        invariant
            n == x@.len(),
            n == y@.len(),
            r@.len() == i,
            forall|j: int| 0 <= j < i ==> values((#[trigger] r@[j])@) == seq_add(values(x@[j]@), values(y@[j]@), modulus::<T>()),
    {
        r.push(matrix_add(x[i].as_slice(), y[i].as_slice()));
    }
    r
}

/// Row-by-row x - y.
pub fn rows_sub<T: ShareElement>(x: &Vec<Vec<T>>, y: &Vec<Vec<T>>) -> (r: Vec<Vec<T>>)
    requires
        x@.len() == y@.len(),
    ensures
        r@.len() == x@.len(),
        forall|i: int| 0 <= i < x@.len() ==> values((#[trigger] r@[i])@) == seq_sub(values(x@[i]@), values(y@[i]@), modulus::<T>()),
{
    let n = x.len();
    let mut r: Vec<Vec<T>> = Vec::with_capacity(n);
    for i in 0..n
        invariant
            n == x@.len(),
            n == y@.len(),
            r@.len() == i,
            forall|j: int| 0 <= j < i ==> values((#[trigger] r@[j])@) == seq_sub(values(x@[j]@), values(y@[j]@), modulus::<T>()),
    {
        r.push(matrix_subtract(x[i].as_slice(), y[i].as_slice()));
    }
    r
}

/// A copy of the rows.
pub fn copy_rows<T: ShareElement>(x: &Vec<Vec<T>>) -> (r: Vec<Vec<T>>)
    ensures
        r@.len() == x@.len(),
        forall|i: int| 0 <= i < x@.len() ==> (#[trigger] r@[i])@ == x@[i]@,
{
    let n = x.len();
    let mut r: Vec<Vec<T>> = Vec::with_capacity(n);
    for i in 0..n
        invariant
            n == x@.len(),
            r@.len() == i,
            forall|j: int| 0 <= j < i ==> (#[trigger] r@[j])@ == x@[j]@,
    {
        r.push(copy_elems(x[i].as_slice()));
    }
    r
}

impl<S: Spdz2kShare, const N: usize> FakeGateData<S, N> {
    pub fn new_with_dims(dim_row: usize, dim_col: usize) -> (r: Self)
        ensures
            fake_fresh(r, dim_row, dim_col, None, None),
    {
        FakeGateData {
            dim_row,
            dim_col,
            lambda_clear: Vec::new(),
            lambda_shr: empty_rows(N),
            lambda_shr_mac: empty_rows(N),
            input_x: None,
            input_y: None,
            evaluated_offline: false,
        }
    }

    /// A 1 x 1 gate reading from the given inputs.
    pub fn new_with_inputs(input_x: usize, input_y: Option<usize>) -> (r: Self)
        ensures
            fake_fresh(r, 1, 1, Some(input_x), input_y),
    {
        FakeGateData {
            dim_row: 1,
            dim_col: 1,
            lambda_clear: Vec::new(),
            lambda_shr: empty_rows(N),
            lambda_shr_mac: empty_rows(N),
            input_x: Some(input_x),
            input_y,
            evaluated_offline: false,
        }
    }
}

/// The common interface of the dealer's gates.
pub trait FakeGate<S: Spdz2kShare, const N: usize> {
    spec fn fake_data(&self) -> FakeGateData<S, N>;

    /// The name of this gate's kind.
    spec fn gate_name(&self) -> Seq<char>;

    fn name(&self) -> (r: &'static str)
        ensures
            r@ == self.gate_name(),
    ;

    fn dim_row(&self) -> (r: usize)
        ensures
            r == self.fake_data().dim_row,
    ;

    fn dim_col(&self) -> (r: usize)
        ensures
            r == self.fake_data().dim_col,
    ;

    fn input_x(&self) -> (r: Option<usize>)
        ensures
            r == self.fake_data().input_x,
    ;

    fn input_y(&self) -> (r: Option<usize>)
        ensures
            r == self.fake_data().input_y,
    ;

    fn lambda_clear(&self) -> (r: &Vec<S::ClearType>)
        ensures
            r@ == self.fake_data().lambda_clear@,
    ;

    fn lambda_shr(&self) -> (r: &Vec<Vec<S::SemiShrType>>)
        ensures
            r@ == self.fake_data().lambda_shr@,
    ;

    fn lambda_shr_mac(&self) -> (r: &Vec<Vec<S::SemiShrType>>)
        ensures
            r@ == self.fake_data().lambda_shr_mac@,
    ;

    fn is_evaluated_offline(&self) -> (r: bool)
        ensures
            r == self.fake_data().evaluated_offline,
    ;
}

} // verus!
