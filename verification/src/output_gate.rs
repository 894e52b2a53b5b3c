//! Output gates: the parties exchange their shares of lambda_x and take
//! x = Delta_x - lambda_x.
use crate::gate::{bytes_of, fresh, lemma_bytes_of_fits, read_piece, size_ok, Gate, GateData};
use crate::linear_algebra::{matrix_add_assign, matrix_subtract};
use crate::ring::{cong, lemma_cong, lemma_cong_mod, seq_add, seq_sub};
use crate::share::{
    decoded, modulus, seq_to_bytes, slice_as_bytes, values, widen, ShareElement, Spdz2kShare,
};
use vstd::arithmetic::power2::pow2;
use vstd::prelude::*;

verus! {

pub struct OutputGate<S: Spdz2kShare> {
    pub data: GateData<S>,
    output_value: Vec<S::SemiShrType>,
}

impl<S: Spdz2kShare> OutputGate<S> {
    /// The opened value x, in the share ring.
    pub closed spec fn output_seq(&self) -> Seq<S::SemiShrType> {
        self.output_value@
    }

    /// A gate opening the dim_row x dim_col output of `input_x`.
    pub fn new(input_x: usize, dim_row: usize, dim_col: usize) -> (r: Self)
        ensures
            fresh(r.gate_data(), dim_row, dim_col, Some(input_x), None),
            r.output_seq().len() == 0,
    {
        let mut data = GateData::new_with_inputs(input_x, None);
        data.dim_row = dim_row;
        data.dim_col = dim_col;
        OutputGate { data, output_value: Vec::new() }
    }

    /// Nothing is read; this gate is marked as read.
    pub fn do_read_offline(&mut self)
        ensures
            final(self).gate_data() == (GateData::<S> { read_offline: true, ..old(self).gate_data() }),
            final(self).output_seq() == old(self).output_seq(),
    {
        self.data.read_offline = true;
    }

    /// What this party sends: its share of lambda_x.
    pub fn online_message(&self, input_lambda_shr: &Vec<S::SemiShrType>) -> (r: Vec<u8>)
        ensures
            r@ == seq_to_bytes(input_lambda_shr@),
    {
        slice_as_bytes(input_lambda_shr.as_slice())
    }

    /// With the other party's share of lambda_x: lambda_x = other + own,
    /// x = Delta_x - lambda_x.
    pub fn online_finish(&mut self, input_lambda_shr: &Vec<S::SemiShrType>, input_delta: &Vec<S::SemiShrType>, received: &Vec<u8>)
        requires
            size_ok(old(self).gate_data().dim_row as int, old(self).gate_data().dim_col as int),
            received@.len() == bytes_of::<S::SemiShrType>(old(self).gate_data().dim_row * old(self).gate_data().dim_col),
        ensures
            final(self).gate_data() == (GateData::<S> { evaluated_online: true, ..old(self).gate_data() }),
            values(final(self).output_seq()) == seq_sub(
                values(input_delta@),
                output_mask::<S>(decoded::<S::SemiShrType>(received@), input_lambda_shr@),
                modulus::<S::SemiShrType>(),
            ),
            forall|i: int| 0 <= i < final(self).output_seq().len() && i < input_lambda_shr@.len() ==>
                #[trigger] final(self).output_seq()[i].value() == (input_delta@[i].value()
                    - (decoded::<S::SemiShrType>(received@)[i].value() + input_lambda_shr@[i].value()) % modulus::<S::SemiShrType>())
                    % modulus::<S::SemiShrType>(),
    {
        let size = self.data.dim_row * self.data.dim_col;
        proof {
            lemma_bytes_of_fits::<S::SemiShrType>(size as int);
        }
        let mut lambda_clear = read_piece::<S::SemiShrType>(received, size);
        let ghost other = lambda_clear@;
        matrix_add_assign(&mut lambda_clear, input_lambda_shr.as_slice());
        proof {
            let n = crate::ring::min_len(values(other), values(input_lambda_shr@));
            let sa = seq_add(values(other), values(input_lambda_shr@), modulus::<S::SemiShrType>());
            assert forall|i: int| 0 <= i < other.len() implies #[trigger] values(lambda_clear@)[i] == output_mask::<S>(other, input_lambda_shr@)[i] by {
                if i < n {
                    assert(values(lambda_clear@).subrange(0, n as int)[i] == sa[i]);
                }
            }
            assert(values(lambda_clear@) =~= output_mask::<S>(other, input_lambda_shr@));
        }
        self.output_value = matrix_subtract(input_delta.as_slice(), lambda_clear.as_slice());
        self.data.evaluated_online = true;
        proof {
            let ghost mask = output_mask::<S>(other, input_lambda_shr@);
            assert forall|i: int| 0 <= i < self.output_value@.len() && i < input_lambda_shr@.len() implies
                #[trigger] self.output_value@[i].value() == (input_delta@[i].value()
                    - (other[i].value() + input_lambda_shr@[i].value()) % modulus::<S::SemiShrType>())
                    % modulus::<S::SemiShrType>() by {
                assert(values(self.output_value@)[i] == self.output_value@[i].value());
                assert(i < other.len());
                assert(mask[i] == (other[i].value() + input_lambda_shr@[i].value()) % modulus::<S::SemiShrType>());
            }
        }
    }

    /// The opened values as clear values (the low K bits).
    pub fn get_clear(&self) -> (r: Vec<S::ClearType>)
        ensures
            r@.len() == self.output_seq().len(),
            forall|i: int| 0 <= i < r@.len() ==> #[trigger] r@[i].value() == self.output_seq()[i].value() % (pow2(S::K_BITS as nat) as int),
    {
        let n = self.output_value.len();
        let mut r: Vec<S::ClearType> = Vec::with_capacity(n);
        for i in 0..n
            invariant
                n == self.output_value@.len(),
                r@.len() == i,
                forall|j: int| 0 <= j < i ==> #[trigger] r@[j].value() == self.output_value@[j].value() % (pow2(S::K_BITS as nat) as int),
        {
            proof {
                S::lemma_widths();
            }
            r.push(widen::<S::SemiShrType, S::ClearType>(self.output_value[i]));
        }
        r
    }
}

/// The reconstructed mask: the other party's shares added to one's own, on
/// the positions both cover; one's own shares beyond.
pub open spec fn output_mask<S: Spdz2kShare>(other: Seq<S::SemiShrType>, own: Seq<S::SemiShrType>) -> Seq<int> {
    let m = modulus::<S::SemiShrType>();
    let n = crate::ring::min_len(values(other), values(own));
    Seq::new(other.len(), |i: int| if i < n { (other[i].value() + own[i].value()) % m } else { other[i].value() })
}

/// Law: when Delta = x + lambda0 + lambda1 (mod m) at an entry, the value
/// opened there is x (mod m).
pub proof fn lemma_output_reconstructs(delta: int, x: int, l0: int, l1: int, m: int)
    requires
        m > 0,
        cong(delta, x + l0 + l1, m),
    ensures
        cong((delta - (l1 + l0) % m) % m, x, m),
{
    lemma_cong_mod(l1 + l0, m);
    lemma_cong(delta, x + l0 + l1, (l1 + l0) % m, l1 + l0, m);
    lemma_cong_mod(delta - (l1 + l0) % m, m);
}

impl<S: Spdz2kShare> Gate<S> for OutputGate<S> {
    closed spec fn gate_data(&self) -> GateData<S> {
        self.data
    }

    open spec fn gate_name(&self) -> Seq<char> {
        "OutputGate"@
    }

    fn name(&self) -> &'static str {
        "OutputGate"
    }

    fn dim_row(&self) -> usize {
        self.data.dim_row
    }

    fn dim_col(&self) -> usize {
        self.data.dim_col
    }

    fn lambda_shr(&self) -> &Vec<S::SemiShrType> {
        &self.data.lambda_shr
    }

    fn lambda_shr_mac(&self) -> &Vec<S::SemiShrType> {
        &self.data.lambda_shr_mac
    }

    fn delta_clear(&self) -> &Vec<S::SemiShrType> {
        &self.data.delta_clear
    }

    fn input_x(&self) -> Option<usize> {
        self.data.input_x
    }

    fn input_y(&self) -> Option<usize> {
        self.data.input_y
    }

    fn is_read_offline(&self) -> bool {
        self.data.read_offline
    }

    fn is_evaluated_online(&self) -> bool {
        self.data.evaluated_online
    }
}


/// Law (opening an output, two parties): the mask an output gate rebuilds
/// is, at every entry both parties' shares cover, the sum of the two
/// parties' shares at that same entry; so when Delta = x + lambda0 + lambda1
/// at every entry, party 0 (own shares l0, receiving l1) and party 1 (own
/// shares l1, receiving l0) both open x at every entry.
pub proof fn lemma_output_opens<S: Spdz2kShare>(delta: Seq<S::SemiShrType>, x: Seq<int>, l0: Seq<S::SemiShrType>, l1: Seq<S::SemiShrType>)
    requires
        l0.len() == l1.len(),
        delta.len() == l0.len(),
        x.len() == l0.len(),
        forall|i: int| 0 <= i < x.len() ==> cong(#[trigger] delta[i].value(), x[i] + l0[i].value() + l1[i].value(), modulus::<S::SemiShrType>()),
    ensures
        forall|i: int| 0 <= i < l0.len() ==> #[trigger] output_mask::<S>(l1, l0)[i] == (l0[i].value() + l1[i].value()) % modulus::<S::SemiShrType>(),
        forall|i: int| 0 <= i < l0.len() ==> #[trigger] output_mask::<S>(l0, l1)[i] == (l0[i].value() + l1[i].value()) % modulus::<S::SemiShrType>(),
        seq_sub(values(delta), output_mask::<S>(l1, l0), modulus::<S::SemiShrType>()).len() == x.len(),
        seq_sub(values(delta), output_mask::<S>(l0, l1), modulus::<S::SemiShrType>()).len() == x.len(),
        forall|i: int| 0 <= i < x.len() ==> cong(#[trigger] seq_sub(values(delta), output_mask::<S>(l1, l0), modulus::<S::SemiShrType>())[i], x[i], modulus::<S::SemiShrType>()),
        forall|i: int| 0 <= i < x.len() ==> cong(#[trigger] seq_sub(values(delta), output_mask::<S>(l0, l1), modulus::<S::SemiShrType>())[i], x[i], modulus::<S::SemiShrType>()),
{
    let m = modulus::<S::SemiShrType>();
    vstd::arithmetic::power2::lemma_pow2_pos(S::SemiShrType::width());
    assert forall|i: int| 0 <= i < x.len() implies cong(#[trigger] seq_sub(values(delta), output_mask::<S>(l1, l0), m)[i], x[i], m) by {
        lemma_output_reconstructs(delta[i].value(), x[i], l0[i].value(), l1[i].value(), m);
        assert(l1[i].value() + l0[i].value() == l0[i].value() + l1[i].value());
    }
    assert forall|i: int| 0 <= i < x.len() implies cong(#[trigger] seq_sub(values(delta), output_mask::<S>(l0, l1), m)[i], x[i], m) by {
        lemma_output_reconstructs(delta[i].value(), x[i], l0[i].value(), l1[i].value(), m);
    }
}

} // verus!
