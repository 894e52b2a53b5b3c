//! Element-wise multiplication gates: a Beaver triple (a, b, c = a * b, entry
//! by entry) and the public operands tx = Delta_x + delta_x and
//! ty = Delta_y + delta_y give each party a share of Delta_z = x * y + lambda_z;
//! the parties exchange the shares and both keep the low K bits of their sum.
use crate::beaver::{elem_delta_share, elem_mac_share, elem_mac_share_exec, elem_share};
use crate::dealer::wide;
use crate::fake_elem_multiply_gate::elem_dealing_ok;
use crate::fake_multiply_gate::{dealing_bytes, MultiplyDealing};
use crate::multiply_gate::dealing_pieces;
use crate::gate::{byte_len, bytes_of, fresh, lemma_bytes_of_fits, pieces_match, read_piece, size_ok, Gate, GateData};
use crate::linear_algebra::{matrix_add, matrix_add_assign, matrix_elem_multiply};
use crate::ring::seq_add;
use crate::share::{decoded, lemma_widen_keeps, modulus, seq_to_bytes, slice_as_bytes, values, widen, ShareElement, Spdz2kShare};
use vstd::arithmetic::power2::pow2;
use vstd::prelude::*;

verus! {

pub struct ElemMultiplyGate<S: Spdz2kShare> {
    pub data: GateData<S>,
    pub a_shr: Vec<S::SemiShrType>,
    a_shr_mac: Vec<S::SemiShrType>,
    pub b_shr: Vec<S::SemiShrType>,
    b_shr_mac: Vec<S::SemiShrType>,
    pub c_shr: Vec<S::SemiShrType>,
    c_shr_mac: Vec<S::SemiShrType>,
    pub delta_x_clear: Vec<S::SemiShrType>,
    pub delta_y_clear: Vec<S::SemiShrType>,
    delta_z_shr: Vec<S::SemiShrType>,
    delta_z_mac: Vec<S::SemiShrType>,
}

impl<S: Spdz2kShare> ElemMultiplyGate<S> {
    pub closed spec fn a_seq(&self) -> Seq<S::SemiShrType> {
        self.a_shr@
    }

    pub closed spec fn a_mac_seq(&self) -> Seq<S::SemiShrType> {
        self.a_shr_mac@
    }

    pub closed spec fn b_seq(&self) -> Seq<S::SemiShrType> {
        self.b_shr@
    }

    pub closed spec fn b_mac_seq(&self) -> Seq<S::SemiShrType> {
        self.b_shr_mac@
    }

    pub closed spec fn c_seq(&self) -> Seq<S::SemiShrType> {
        self.c_shr@
    }

    pub closed spec fn c_mac_seq(&self) -> Seq<S::SemiShrType> {
        self.c_shr_mac@
    }

    /// delta_x = a - lambda_x, in the clear.
    pub closed spec fn dx_seq(&self) -> Seq<S::SemiShrType> {
        self.delta_x_clear@
    }

    /// delta_y = b - lambda_y, in the clear.
    pub closed spec fn dy_seq(&self) -> Seq<S::SemiShrType> {
        self.delta_y_clear@
    }

    /// This party's share of Delta_z, sent to the other party.
    pub closed spec fn pending_seq(&self) -> Seq<S::SemiShrType> {
        self.delta_z_shr@
    }

    /// This party's share of the MAC of Delta_z.
    pub closed spec fn pending_mac_seq(&self) -> Seq<S::SemiShrType> {
        self.delta_z_mac@
    }

    /// All preprocessing data is there, in the sizes of this gate.
    pub closed spec fn offline_ok(&self) -> bool {
        let size = self.data.dim_row * self.data.dim_col;
        &&& self.a_shr@.len() == size
        &&& self.a_shr_mac@.len() == size
        &&& self.b_shr@.len() == size
        &&& self.b_shr_mac@.len() == size
        &&& self.c_shr@.len() == size
        &&& self.c_shr_mac@.len() == size
        &&& self.data.lambda_shr@.len() == size
        &&& self.data.lambda_shr_mac@.len() == size
        &&& self.delta_x_clear@.len() == size
        &&& self.delta_y_clear@.len() == size
    }

    /// No preprocessing data is held.
    pub closed spec fn freed(&self) -> bool {
        &&& self.a_shr@.len() == 0
        &&& self.a_shr_mac@.len() == 0
        &&& self.b_shr@.len() == 0
        &&& self.b_shr_mac@.len() == 0
        &&& self.c_shr@.len() == 0
        &&& self.c_shr_mac@.len() == 0
        &&& self.delta_x_clear@.len() == 0
        &&& self.delta_y_clear@.len() == 0
        &&& self.delta_z_shr@.len() == 0
        &&& self.delta_z_mac@.len() == 0
    }

    /// This gate state apart from the common data and the exchanged share.
    pub closed spec fn triple_state(&self) -> (Seq<S::SemiShrType>, Seq<S::SemiShrType>, Seq<S::SemiShrType>, Seq<S::SemiShrType>, Seq<S::SemiShrType>, Seq<S::SemiShrType>, Seq<S::SemiShrType>, Seq<S::SemiShrType>) {
        (self.a_shr@, self.a_shr_mac@, self.b_shr@, self.b_shr_mac@, self.c_shr@, self.c_shr_mac@, self.delta_x_clear@, self.delta_y_clear@)
    }

    /// A gate multiplying the dim_row x dim_col outputs of `input_x` and
    /// `input_y` entry by entry.
    pub fn new(input_x: usize, input_y: usize, dim_row: usize, dim_col: usize) -> (r: Self)
        ensures
            fresh(r.gate_data(), dim_row, dim_col, Some(input_x), Some(input_y)),
            r.freed(),
    {
        let mut data = GateData::new_with_inputs(input_x, Some(input_y));
        data.dim_row = dim_row;
        data.dim_col = dim_col;
        ElemMultiplyGate {
            data,
            a_shr: Vec::new(),
            a_shr_mac: Vec::new(),
            b_shr: Vec::new(),
            b_shr_mac: Vec::new(),
            c_shr: Vec::new(),
            c_shr_mac: Vec::new(),
            delta_x_clear: Vec::new(),
            delta_y_clear: Vec::new(),
            delta_z_shr: Vec::new(),
            delta_z_mac: Vec::new(),
        }
    }

    /// Whether all preprocessing data is there, in the size of this gate.
    pub fn offline_ready(&self) -> (r: bool)
        requires
            size_ok(self.gate_data().dim_row as int, self.gate_data().dim_col as int),
        ensures
            r == self.offline_ok(),
    {
        let size = self.data.dim_row * self.data.dim_col;
        self.a_shr.len() == size && self.a_shr_mac.len() == size && self.b_shr.len() == size
            && self.b_shr_mac.len() == size && self.c_shr.len() == size && self.c_shr_mac.len() == size
            && self.data.lambda_shr.len() == size && self.data.lambda_shr_mac.len() == size
            && self.delta_x_clear.len() == size && self.delta_y_clear.len() == size
    }

    /// The byte lengths of the pieces of preprocessing data, in order: a,
    /// a_mac, b, b_mac, c, c_mac, lambda_z, lambda_z_mac, delta_x, delta_y.
    pub fn offline_layout(&self) -> (r: Vec<usize>)
        requires
            size_ok(self.gate_data().dim_row as int, self.gate_data().dim_col as int),
        ensures
            r@ == seq![bytes_of::<S::SemiShrType>(self.gate_data().dim_row * self.gate_data().dim_col) as usize; 10],
    {
        let o = byte_len::<S::SemiShrType>(self.data.dim_row * self.data.dim_col);
        let v = vec![o, o, o, o, o, o, o, o, o, o];
        assert(v@ =~= seq![o; 10]);
        v
    }

    /// Takes the pieces of `offline_layout`, in order.
    pub fn do_read_offline(&mut self, pieces: &Vec<Vec<u8>>)
        requires
            size_ok(old(self).gate_data().dim_row as int, old(self).gate_data().dim_col as int),
            pieces_match(pieces@, seq![bytes_of::<S::SemiShrType>(old(self).gate_data().dim_row * old(self).gate_data().dim_col) as usize; 10]),
        ensures
            final(self).gate_data() == (GateData::<S> {
                lambda_shr: final(self).gate_data().lambda_shr,
                lambda_shr_mac: final(self).gate_data().lambda_shr_mac,
                read_offline: true,
                ..old(self).gate_data()
            }),
            final(self).offline_ok(),
            final(self).a_seq() == decoded::<S::SemiShrType>(pieces@[0]@),
            final(self).a_mac_seq() == decoded::<S::SemiShrType>(pieces@[1]@),
            final(self).b_seq() == decoded::<S::SemiShrType>(pieces@[2]@),
            final(self).b_mac_seq() == decoded::<S::SemiShrType>(pieces@[3]@),
            final(self).c_seq() == decoded::<S::SemiShrType>(pieces@[4]@),
            final(self).c_mac_seq() == decoded::<S::SemiShrType>(pieces@[5]@),
            final(self).gate_data().lambda_shr@ == decoded::<S::SemiShrType>(pieces@[6]@),
            final(self).gate_data().lambda_shr_mac@ == decoded::<S::SemiShrType>(pieces@[7]@),
            final(self).dx_seq() == decoded::<S::SemiShrType>(pieces@[8]@),
            final(self).dy_seq() == decoded::<S::SemiShrType>(pieces@[9]@),
            final(self).pending_seq() == old(self).pending_seq(),
            final(self).pending_mac_seq() == old(self).pending_mac_seq(),
    {
        let size_output = self.data.dim_row * self.data.dim_col;
        let size_lhs = size_output;
        let size_rhs = size_output;
        proof {
            lemma_bytes_of_fits::<S::SemiShrType>(size_output as int);
        }
        self.a_shr = read_piece::<S::SemiShrType>(&pieces[0], size_lhs);
        self.a_shr_mac = read_piece::<S::SemiShrType>(&pieces[1], size_lhs);
        self.b_shr = read_piece::<S::SemiShrType>(&pieces[2], size_rhs);
        self.b_shr_mac = read_piece::<S::SemiShrType>(&pieces[3], size_rhs);
        self.c_shr = read_piece::<S::SemiShrType>(&pieces[4], size_output);
        self.c_shr_mac = read_piece::<S::SemiShrType>(&pieces[5], size_output);
        self.data.lambda_shr = read_piece::<S::SemiShrType>(&pieces[6], size_output);
        self.data.lambda_shr_mac = read_piece::<S::SemiShrType>(&pieces[7], size_output);
        self.delta_x_clear = read_piece::<S::SemiShrType>(&pieces[8], size_lhs);
        self.delta_y_clear = read_piece::<S::SemiShrType>(&pieces[9], size_rhs);
        self.data.read_offline = true;
    }

    /// The first half of the online step: from Delta_x and Delta_y, this
    /// party's shares of Delta_z and of its MAC; the share of Delta_z is
    /// kept and returned encoded, to be sent to the other party.
    pub fn online_message(&mut self, delta_x: &[S::SemiShrType], delta_y: &[S::SemiShrType], my_id: usize, global_key_shr: S::GlobalKeyType) -> (r: Vec<u8>)
        requires
            size_ok(old(self).gate_data().dim_row as int, old(self).gate_data().dim_col as int),
            old(self).offline_ok(),
            delta_x@.len() == old(self).gate_data().dim_row * old(self).gate_data().dim_col,
            delta_y@.len() == old(self).gate_data().dim_row * old(self).gate_data().dim_col,
        ensures
            final(self).gate_data() == old(self).gate_data(),
            final(self).triple_state() == old(self).triple_state(),
            final(self).offline_ok(),
            final(self).pending_seq().len() == old(self).gate_data().dim_row * old(self).gate_data().dim_col,
            values(final(self).pending_seq()) == elem_share(
                values(old(self).a_seq()),
                values(old(self).b_seq()),
                values(old(self).c_seq()),
                values(old(self).gate_data().lambda_shr@),
                seq_add(values(delta_x@), values(old(self).dx_seq()), modulus::<S::SemiShrType>()),
                seq_add(values(delta_y@), values(old(self).dy_seq()), modulus::<S::SemiShrType>()),
                modulus::<S::SemiShrType>(),
                my_id == 0,
            ),
            values(final(self).pending_mac_seq()) == elem_mac_share(
                values(old(self).a_mac_seq()),
                values(old(self).b_mac_seq()),
                values(old(self).c_mac_seq()),
                values(old(self).gate_data().lambda_shr_mac@),
                seq_add(values(delta_x@), values(old(self).dx_seq()), modulus::<S::SemiShrType>()),
                seq_add(values(delta_y@), values(old(self).dy_seq()), modulus::<S::SemiShrType>()),
                global_key_shr.value(),
                modulus::<S::SemiShrType>(),
            ),
            r@ == seq_to_bytes(final(self).pending_seq()),
    {
        let dim_row = self.data.dim_row;
        let dim_col = self.data.dim_col;
        proof {
            S::lemma_widths();
            lemma_widen_keeps::<S::GlobalKeyType, S::SemiShrType>(global_key_shr);
        }
        let temp_x = matrix_add(delta_x, self.delta_x_clear.as_slice());
        let temp_y = matrix_add(delta_y, self.delta_y_clear.as_slice());
        let temp_xy = matrix_elem_multiply(temp_x.as_slice(), temp_y.as_slice());
        let delta_z_shr = elem_delta_share(
            self.a_shr.as_slice(),
            self.b_shr.as_slice(),
            self.c_shr.as_slice(),
            self.data.lambda_shr.as_slice(),
            temp_x.as_slice(),
            temp_y.as_slice(),
            &temp_xy,
            my_id,
        );
        let key_wide = widen::<S::GlobalKeyType, S::SemiShrType>(global_key_shr);
        let delta_z_mac = elem_mac_share_exec(
            self.a_shr_mac.as_slice(),
            self.b_shr_mac.as_slice(),
            &self.c_shr_mac,
            &self.data.lambda_shr_mac,
            temp_x.as_slice(),
            temp_y.as_slice(),
            &temp_xy,
            key_wide,
        );
        proof {
            assert(values(delta_z_shr@).len() == delta_z_shr@.len());
            assert(values(self.c_shr@).len() == dim_row * dim_col);
            assert(values(self.data.lambda_shr@).len() == dim_row * dim_col);
        }
        let r = slice_as_bytes(delta_z_shr.as_slice());
        self.delta_z_shr = delta_z_shr;
        self.delta_z_mac = delta_z_mac;
        r
    }

    /// The second half: with the other party's share of Delta_z, Delta_z is
    /// the sum of both shares, kept to its low K bits; the preprocessing data
    /// is freed.
    pub fn online_finish(&mut self, received: &Vec<u8>)
        requires
            size_ok(old(self).gate_data().dim_row as int, old(self).gate_data().dim_col as int),
            old(self).pending_seq().len() == old(self).gate_data().dim_row * old(self).gate_data().dim_col,
            received@.len() == bytes_of::<S::SemiShrType>(old(self).gate_data().dim_row * old(self).gate_data().dim_col),
        ensures
            final(self).gate_data() == (GateData::<S> {
                delta_clear: final(self).gate_data().delta_clear,
                evaluated_online: true,
                ..old(self).gate_data()
            }),
            final(self).freed(),
            final(self).gate_data().delta_clear@.len() == old(self).gate_data().dim_row * old(self).gate_data().dim_col,
            forall|i: int| 0 <= i < final(self).gate_data().delta_clear@.len() ==> #[trigger] final(self).gate_data().delta_clear@[i].value() == ((decoded::<S::SemiShrType>(received@)[i].value() + old(self).pending_seq()[i].value()) % modulus::<S::SemiShrType>()) % (pow2(S::K_BITS as nat) as int),
    {
        let size_output = self.data.dim_row * self.data.dim_col;
        proof {
            lemma_bytes_of_fits::<S::SemiShrType>(size_output as int);
        }
        let mut delta = read_piece::<S::SemiShrType>(received, size_output);
        let ghost rcv = delta@;
        matrix_add_assign(&mut delta, self.delta_z_shr.as_slice());
        proof {
            assert forall|i: int| 0 <= i < delta@.len() implies #[trigger] delta@[i].value() == (rcv[i].value() + self.delta_z_shr@[i].value()) % modulus::<S::SemiShrType>() by {
                assert(values(delta@).subrange(0, size_output as int)[i] == delta@[i].value());
            }
        }
        S::remove_upper_bits_inplace(&mut delta);
        self.data.delta_clear = delta;
        self.data.evaluated_online = true;
        self.a_shr = Vec::new();
        self.a_shr_mac = Vec::new();
        self.b_shr = Vec::new();
        self.b_shr_mac = Vec::new();
        self.c_shr = Vec::new();
        self.c_shr_mac = Vec::new();
        self.delta_x_clear = Vec::new();
        self.delta_y_clear = Vec::new();
        self.delta_z_shr = Vec::new();
        self.delta_z_mac = Vec::new();
    }
}

impl<S: Spdz2kShare> Gate<S> for ElemMultiplyGate<S> {
    closed spec fn gate_data(&self) -> GateData<S> {
        self.data
    }

    open spec fn gate_name(&self) -> Seq<char> {
        "ElemMultiplyGate"@
    }

    fn name(&self) -> &'static str {
        "ElemMultiplyGate"
    }

    fn dim_row(&self) -> usize {
        self.data.dim_row
    }

    fn dim_col(&self) -> usize {
        self.data.dim_col
    }

    fn lambda_shr(&self) -> &Vec<S::SemiShrType> {
        &self.data.lambda_shr
    }

    fn lambda_shr_mac(&self) -> &Vec<S::SemiShrType> {
        &self.data.lambda_shr_mac
    }

    fn delta_clear(&self) -> &Vec<S::SemiShrType> {
        &self.data.delta_clear
    }

    fn input_x(&self) -> Option<usize> {
        self.data.input_x
    }

    fn input_y(&self) -> Option<usize> {
        self.data.input_y
    }

    fn is_read_offline(&self) -> bool {
        self.data.read_offline
    }

    fn is_evaluated_online(&self) -> bool {
        self.data.evaluated_online
    }
}


/// Law (the preprocessing file of an element-wise product gate): the bytes
/// the dealer writes for party i are, in order, ten pieces of the length the
/// gate reads for each, and each piece decodes to what was dealt: the
/// party's shares of the triple and of lambda_z with their MACs, and the
/// corrections.
pub proof fn lemma_elem_file_agrees<S: Spdz2kShare, const N: usize>(
    d: MultiplyDealing<S, N>,
    lx: Seq<S::ClearType>,
    ly: Seq<S::ClearType>,
    size: int,
    key: int,
    i: int,
)
    requires
        elem_dealing_ok(d, lx, ly, size, key),
        0 <= i < N,
        0 <= size,
        lx.len() == size,
        ly.len() == size,
        size * 16 <= usize::MAX,
    ensures
        dealing_pieces(d, i).len() == 10,
        dealing_pieces(d, i).flatten_alt() == dealing_bytes(d, i),
        forall|k: int| 0 <= k < 10 ==> #[trigger] dealing_pieces(d, i)[k].len() == bytes_of::<S::SemiShrType>(size) as usize,
        decoded::<S::SemiShrType>(dealing_pieces(d, i)[0]) == d.a.value_shares@[i]@,
        decoded::<S::SemiShrType>(dealing_pieces(d, i)[1]) == d.a.mac_shares@[i]@,
        decoded::<S::SemiShrType>(dealing_pieces(d, i)[2]) == d.b.value_shares@[i]@,
        decoded::<S::SemiShrType>(dealing_pieces(d, i)[3]) == d.b.mac_shares@[i]@,
        decoded::<S::SemiShrType>(dealing_pieces(d, i)[4]) == d.c.value_shares@[i]@,
        decoded::<S::SemiShrType>(dealing_pieces(d, i)[5]) == d.c.mac_shares@[i]@,
        decoded::<S::SemiShrType>(dealing_pieces(d, i)[6]) == d.lambda.value_shares@[i]@,
        decoded::<S::SemiShrType>(dealing_pieces(d, i)[7]) == d.lambda.mac_shares@[i]@,
        decoded::<S::SemiShrType>(dealing_pieces(d, i)[8]) == d.delta_x@.map_values(|c: S::ClearType| wide::<S>(c)),
        decoded::<S::SemiShrType>(dealing_pieces(d, i)[9]) == d.delta_y@.map_values(|c: S::ClearType| wide::<S>(c)),
{
    let p = dealing_pieces(d, i);
    let dx = d.delta_x@.map_values(|c: S::ClearType| wide::<S>(c));
    let dy = d.delta_y@.map_values(|c: S::ClearType| wide::<S>(c));
    crate::share::lemma_decoded_roundtrip(d.a.value_shares@[i]@);
    crate::share::lemma_decoded_roundtrip(d.a.mac_shares@[i]@);
    crate::share::lemma_decoded_roundtrip(d.b.value_shares@[i]@);
    crate::share::lemma_decoded_roundtrip(d.b.mac_shares@[i]@);
    crate::share::lemma_decoded_roundtrip(d.c.value_shares@[i]@);
    crate::share::lemma_decoded_roundtrip(d.c.mac_shares@[i]@);
    crate::share::lemma_decoded_roundtrip(d.lambda.value_shares@[i]@);
    crate::share::lemma_decoded_roundtrip(d.lambda.mac_shares@[i]@);
    crate::share::lemma_decoded_roundtrip(dx);
    crate::share::lemma_decoded_roundtrip(dy);
    assert(d.a.value_shares@[i]@.len() == size && d.a.mac_shares@[i]@.len() == size);
    assert(d.b.value_shares@[i]@.len() == size && d.b.mac_shares@[i]@.len() == size);
    assert(d.c.value_shares@[i]@.len() == size && d.c.mac_shares@[i]@.len() == size);
    assert(d.lambda.value_shares@[i]@.len() == size && d.lambda.mac_shares@[i]@.len() == size);
    assert(values(d.delta_x@).len() == size && values(d.delta_y@).len() == size);
    lemma_bytes_of_fits::<S::SemiShrType>(size);
    assert forall|k: int| 0 <= k < 10 implies #[trigger] p[k].len() == bytes_of::<S::SemiShrType>(size) as usize by {
    }
    assert(crate::dealer::widened_bytes::<S>(d.delta_x@) == p[8]);
    assert(crate::dealer::widened_bytes::<S>(d.delta_y@) == p[9]);
    reveal_with_fuel(Seq::<Seq<u8>>::flatten_alt, 11);
    assert(p.drop_last().drop_last().drop_last().drop_last().drop_last().drop_last().drop_last().drop_last().drop_last().drop_last().len() == 0);
    assert(p.flatten_alt() =~= dealing_bytes(d, i));
}
} // verus!
