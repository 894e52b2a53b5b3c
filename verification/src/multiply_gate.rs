//! Matrix multiplication gates: with a Beaver triple (a, b, c = a * b) and
//! the public operands tx = Delta_x + delta_x, ty = Delta_y + delta_y, each
//! party computes a share of Delta_z = x * y + lambda_z, the parties exchange
//! the shares and both keep the low K bits of their sum.
use crate::beaver::{matmul_delta_share, matmul_mac_share, matmul_mac_share_exec, matmul_share};
use crate::dealer::wide;
use crate::fake_multiply_gate::{dealing_bytes, matmul_dealing_ok, MultiplyDealing};
use crate::fixed_point::{truncate_clear_vec_inplace, truncated};
use crate::gate::{byte_len, bytes_of, fresh, lemma_bytes_of_fits, pieces_match, read_piece, size_ok, Gate, GateData};
use crate::linear_algebra::{matrix_add, matrix_add_assign, matrix_multiply};
use crate::ring::seq_add;
use crate::share::{decoded, lemma_widen_keeps, modulus, seq_to_bytes, slice_as_bytes, values, widen, ShareElement, Spdz2kShare};
use vstd::arithmetic::power2::pow2;
use vstd::prelude::*;

verus! {

pub struct MultiplyGate<S: Spdz2kShare> {
    pub data: GateData<S>,
    pub dim_mid: usize,
    pub a_shr: Vec<S::SemiShrType>,
    a_shr_mac: Vec<S::SemiShrType>,
    pub b_shr: Vec<S::SemiShrType>,
    b_shr_mac: Vec<S::SemiShrType>,
    pub c_shr: Vec<S::SemiShrType>,
    c_shr_mac: Vec<S::SemiShrType>,
    pub delta_x_clear: Vec<S::SemiShrType>,
    pub delta_y_clear: Vec<S::SemiShrType>,
    delta_z_shr: Vec<S::SemiShrType>,
    delta_z_mac: Vec<S::SemiShrType>,
}

/// The byte layout of the preprocessing data of a product of a
/// rows x mid and a mid x cols matrix: a, a_mac, b, b_mac, c, c_mac,
/// lambda_z, lambda_z_mac, delta_x, delta_y.
pub open spec fn multiply_layout<T: ShareElement>(rows: int, mid: int, cols: int) -> Seq<usize> {
    let l = bytes_of::<T>(rows * mid) as usize;
    let r = bytes_of::<T>(mid * cols) as usize;
    let o = bytes_of::<T>(rows * cols) as usize;
    seq![l, l, r, r, o, o, o, o, l, r]
}

impl<S: Spdz2kShare> MultiplyGate<S> {
    pub closed spec fn mid(&self) -> usize {
        self.dim_mid
    }

    pub closed spec fn a_seq(&self) -> Seq<S::SemiShrType> {
        self.a_shr@
    }

    pub closed spec fn a_mac_seq(&self) -> Seq<S::SemiShrType> {
        self.a_shr_mac@
    }

    pub closed spec fn b_seq(&self) -> Seq<S::SemiShrType> {
        self.b_shr@
    }

    pub closed spec fn b_mac_seq(&self) -> Seq<S::SemiShrType> {
        self.b_shr_mac@
    }

    pub closed spec fn c_seq(&self) -> Seq<S::SemiShrType> {
        self.c_shr@
    }

    pub closed spec fn c_mac_seq(&self) -> Seq<S::SemiShrType> {
        self.c_shr_mac@
    }

    /// delta_x = a - lambda_x, in the clear.
    pub closed spec fn dx_seq(&self) -> Seq<S::SemiShrType> {
        self.delta_x_clear@
    }

    /// delta_y = b - lambda_y, in the clear.
    pub closed spec fn dy_seq(&self) -> Seq<S::SemiShrType> {
        self.delta_y_clear@
    }

    /// This party's share of Delta_z, sent to the other party.
    pub closed spec fn pending_seq(&self) -> Seq<S::SemiShrType> {
        self.delta_z_shr@
    }

    /// This party's share of the MAC of Delta_z.
    pub closed spec fn pending_mac_seq(&self) -> Seq<S::SemiShrType> {
        self.delta_z_mac@
    }

    /// All preprocessing data is there, in the sizes of this gate.
    pub closed spec fn offline_ok(&self) -> bool {
        let rows = self.data.dim_row as int;
        let mid = self.dim_mid as int;
        let cols = self.data.dim_col as int;
        &&& self.a_shr@.len() == rows * mid
        &&& self.a_shr_mac@.len() == rows * mid
        &&& self.b_shr@.len() == mid * cols
        &&& self.b_shr_mac@.len() == mid * cols
        &&& self.c_shr@.len() == rows * cols
        &&& self.c_shr_mac@.len() == rows * cols
        &&& self.data.lambda_shr@.len() == rows * cols
        &&& self.data.lambda_shr_mac@.len() == rows * cols
        &&& self.delta_x_clear@.len() == rows * mid
        &&& self.delta_y_clear@.len() == mid * cols
    }

    /// No preprocessing data is held.
    pub closed spec fn freed(&self) -> bool {
        &&& self.a_shr@.len() == 0
        &&& self.a_shr_mac@.len() == 0
        &&& self.b_shr@.len() == 0
        &&& self.b_shr_mac@.len() == 0
        &&& self.c_shr@.len() == 0
        &&& self.c_shr_mac@.len() == 0
        &&& self.delta_x_clear@.len() == 0
        &&& self.delta_y_clear@.len() == 0
        &&& self.delta_z_shr@.len() == 0
        &&& self.delta_z_mac@.len() == 0
    }

    /// This gate state apart from the common data and the exchanged share.
    pub closed spec fn triple_state(&self) -> (usize, Seq<S::SemiShrType>, Seq<S::SemiShrType>, Seq<S::SemiShrType>, Seq<S::SemiShrType>, Seq<S::SemiShrType>, Seq<S::SemiShrType>, Seq<S::SemiShrType>, Seq<S::SemiShrType>) {
        (self.dim_mid, self.a_shr@, self.a_shr_mac@, self.b_shr@, self.b_shr_mac@, self.c_shr@, self.c_shr_mac@, self.delta_x_clear@, self.delta_y_clear@)
    }

    /// A gate multiplying the dim_row x dim_mid output of `input_x` by the
    /// dim_mid x dim_col output of `input_y`.
    pub fn new(input_x: usize, input_y: usize, dim_row: usize, dim_mid: usize, dim_col: usize) -> (r: Self)
        ensures
            fresh(r.gate_data(), dim_row, dim_col, Some(input_x), Some(input_y)),
            r.mid() == dim_mid,
            r.freed(),
    {
        let mut data = GateData::new_with_inputs(input_x, Some(input_y));
        data.dim_row = dim_row;
        data.dim_col = dim_col;
        MultiplyGate {
            data,
            dim_mid,
            a_shr: Vec::new(),
            a_shr_mac: Vec::new(),
            b_shr: Vec::new(),
            b_shr_mac: Vec::new(),
            c_shr: Vec::new(),
            c_shr_mac: Vec::new(),
            delta_x_clear: Vec::new(),
            delta_y_clear: Vec::new(),
            delta_z_shr: Vec::new(),
            delta_z_mac: Vec::new(),
        }
    }

    pub fn get_dim_mid(&self) -> (r: usize)
        ensures
            r == self.mid(),
    {
        self.dim_mid
    }

    /// Whether all preprocessing data is there, in the sizes of this gate.
    pub fn offline_ready(&self) -> (r: bool)
        requires
            size_ok(self.gate_data().dim_row as int, self.mid() as int),
            size_ok(self.mid() as int, self.gate_data().dim_col as int),
            size_ok(self.gate_data().dim_row as int, self.gate_data().dim_col as int),
        ensures
            r == self.offline_ok(),
    {
        let lhs = self.data.dim_row * self.dim_mid;
        let rhs = self.dim_mid * self.data.dim_col;
        let out = self.data.dim_row * self.data.dim_col;
        self.a_shr.len() == lhs && self.a_shr_mac.len() == lhs && self.b_shr.len() == rhs
            && self.b_shr_mac.len() == rhs && self.c_shr.len() == out && self.c_shr_mac.len() == out
            && self.data.lambda_shr.len() == out && self.data.lambda_shr_mac.len() == out
            && self.delta_x_clear.len() == lhs && self.delta_y_clear.len() == rhs
    }

    /// The byte lengths of the pieces of preprocessing data, in order.
    pub fn offline_layout(&self) -> (r: Vec<usize>)
        requires
            size_ok(self.gate_data().dim_row as int, self.mid() as int),
            size_ok(self.mid() as int, self.gate_data().dim_col as int),
            size_ok(self.gate_data().dim_row as int, self.gate_data().dim_col as int),
        ensures
            r@ == multiply_layout::<S::SemiShrType>(self.gate_data().dim_row as int, self.mid() as int, self.gate_data().dim_col as int),
    {
        let l = byte_len::<S::SemiShrType>(self.data.dim_row * self.dim_mid);
        let r = byte_len::<S::SemiShrType>(self.dim_mid * self.data.dim_col);
        let o = byte_len::<S::SemiShrType>(self.data.dim_row * self.data.dim_col);
        let v = vec![l, l, r, r, o, o, o, o, l, r];
        assert(v@ =~= seq![l, l, r, r, o, o, o, o, l, r]);
        v
    }

    /// Takes the pieces of `offline_layout`, in order.
    pub fn do_read_offline_base(&mut self, pieces: &Vec<Vec<u8>>)
        requires
            size_ok(old(self).gate_data().dim_row as int, old(self).mid() as int),
            size_ok(old(self).mid() as int, old(self).gate_data().dim_col as int),
            size_ok(old(self).gate_data().dim_row as int, old(self).gate_data().dim_col as int),
            pieces@.len() >= 10,
            pieces_match(pieces@.subrange(0, 10), multiply_layout::<S::SemiShrType>(old(self).gate_data().dim_row as int, old(self).mid() as int, old(self).gate_data().dim_col as int)),
        ensures
            final(self).gate_data() == (GateData::<S> {
                lambda_shr: final(self).gate_data().lambda_shr,
                lambda_shr_mac: final(self).gate_data().lambda_shr_mac,
                read_offline: true,
                ..old(self).gate_data()
            }),
            final(self).mid() == old(self).mid(),
            final(self).offline_ok(),
            final(self).a_seq() == decoded::<S::SemiShrType>(pieces@[0]@),
            final(self).a_mac_seq() == decoded::<S::SemiShrType>(pieces@[1]@),
            final(self).b_seq() == decoded::<S::SemiShrType>(pieces@[2]@),
            final(self).b_mac_seq() == decoded::<S::SemiShrType>(pieces@[3]@),
            final(self).c_seq() == decoded::<S::SemiShrType>(pieces@[4]@),
            final(self).c_mac_seq() == decoded::<S::SemiShrType>(pieces@[5]@),
            final(self).gate_data().lambda_shr@ == decoded::<S::SemiShrType>(pieces@[6]@),
            final(self).gate_data().lambda_shr_mac@ == decoded::<S::SemiShrType>(pieces@[7]@),
            final(self).dx_seq() == decoded::<S::SemiShrType>(pieces@[8]@),
            final(self).dy_seq() == decoded::<S::SemiShrType>(pieces@[9]@),
            final(self).pending_seq() == old(self).pending_seq(),
            final(self).pending_mac_seq() == old(self).pending_mac_seq(),
    {
        let size_lhs = self.data.dim_row * self.dim_mid;
        let size_rhs = self.dim_mid * self.data.dim_col;
        let size_output = self.data.dim_row * self.data.dim_col;
        proof {
            let layout = multiply_layout::<S::SemiShrType>(self.data.dim_row as int, self.dim_mid as int, self.data.dim_col as int);
            assert forall|j: int| 0 <= j < 10 implies #[trigger] pieces@[j]@.len() == layout[j] by {
                assert(pieces@.subrange(0, 10)[j] == pieces@[j]);
            }
            lemma_bytes_of_fits::<S::SemiShrType>(size_lhs as int);
            lemma_bytes_of_fits::<S::SemiShrType>(size_rhs as int);
            lemma_bytes_of_fits::<S::SemiShrType>(size_output as int);
        }
        self.a_shr = read_piece::<S::SemiShrType>(&pieces[0], size_lhs);
        self.a_shr_mac = read_piece::<S::SemiShrType>(&pieces[1], size_lhs);
        self.b_shr = read_piece::<S::SemiShrType>(&pieces[2], size_rhs);
        self.b_shr_mac = read_piece::<S::SemiShrType>(&pieces[3], size_rhs);
        self.c_shr = read_piece::<S::SemiShrType>(&pieces[4], size_output);
        self.c_shr_mac = read_piece::<S::SemiShrType>(&pieces[5], size_output);
        self.data.lambda_shr = read_piece::<S::SemiShrType>(&pieces[6], size_output);
        self.data.lambda_shr_mac = read_piece::<S::SemiShrType>(&pieces[7], size_output);
        self.delta_x_clear = read_piece::<S::SemiShrType>(&pieces[8], size_lhs);
        self.delta_y_clear = read_piece::<S::SemiShrType>(&pieces[9], size_rhs);
        self.data.read_offline = true;
    }

    /// The first half of the online step: from Delta_x and Delta_y, this
    /// party's shares of Delta_z and of its MAC; the share of Delta_z is
    /// kept and returned encoded, to be sent to the other party.
    pub fn online_message(&mut self, delta_x: &[S::SemiShrType], delta_y: &[S::SemiShrType], my_id: usize, global_key_shr: S::GlobalKeyType) -> (r: Vec<u8>)
        requires
            size_ok(old(self).gate_data().dim_row as int, old(self).mid() as int),
            size_ok(old(self).mid() as int, old(self).gate_data().dim_col as int),
            size_ok(old(self).gate_data().dim_row as int, old(self).gate_data().dim_col as int),
            old(self).offline_ok(),
            delta_x@.len() == old(self).gate_data().dim_row * old(self).mid(),
            delta_y@.len() == old(self).mid() * old(self).gate_data().dim_col,
        ensures
            final(self).gate_data() == old(self).gate_data(),
            final(self).triple_state() == old(self).triple_state(),
            final(self).mid() == old(self).mid(),
            final(self).offline_ok(),
            final(self).pending_seq().len() == old(self).gate_data().dim_row * old(self).gate_data().dim_col,
            values(final(self).pending_seq()) == matmul_share(
                values(old(self).a_seq()),
                values(old(self).b_seq()),
                values(old(self).c_seq()),
                values(old(self).gate_data().lambda_shr@),
                seq_add(values(delta_x@), values(old(self).dx_seq()), modulus::<S::SemiShrType>()),
                seq_add(values(delta_y@), values(old(self).dy_seq()), modulus::<S::SemiShrType>()),
                old(self).gate_data().dim_row as int,
                old(self).mid() as int,
                old(self).gate_data().dim_col as int,
                modulus::<S::SemiShrType>(),
                my_id == 0,
            ),
            values(final(self).pending_mac_seq()) == matmul_mac_share(
                values(old(self).a_mac_seq()),
                values(old(self).b_mac_seq()),
                values(old(self).c_mac_seq()),
                values(old(self).gate_data().lambda_shr_mac@),
                seq_add(values(delta_x@), values(old(self).dx_seq()), modulus::<S::SemiShrType>()),
                seq_add(values(delta_y@), values(old(self).dy_seq()), modulus::<S::SemiShrType>()),
                global_key_shr.value(),
                old(self).gate_data().dim_row as int,
                old(self).mid() as int,
                old(self).gate_data().dim_col as int,
                modulus::<S::SemiShrType>(),
            ),
            r@ == seq_to_bytes(final(self).pending_seq()),
    {
        let dim_row = self.data.dim_row;
        let dim_mid = self.dim_mid;
        let dim_col = self.data.dim_col;
        proof {
            S::lemma_widths();
            lemma_widen_keeps::<S::GlobalKeyType, S::SemiShrType>(global_key_shr);
        }
        let temp_x = matrix_add(delta_x, self.delta_x_clear.as_slice());
        let temp_y = matrix_add(delta_y, self.delta_y_clear.as_slice());
        let temp_xy = matrix_multiply(temp_x.as_slice(), temp_y.as_slice(), dim_row, dim_mid, dim_col);
        let delta_z_shr = matmul_delta_share(
            self.a_shr.as_slice(),
            self.b_shr.as_slice(),
            self.c_shr.as_slice(),
            self.data.lambda_shr.as_slice(),
            temp_x.as_slice(),
            temp_y.as_slice(),
            &temp_xy,
            dim_row,
            dim_mid,
            dim_col,
            my_id,
        );
        let key_wide = widen::<S::GlobalKeyType, S::SemiShrType>(global_key_shr);
        let delta_z_mac = matmul_mac_share_exec(
            self.a_shr_mac.as_slice(),
            self.b_shr_mac.as_slice(),
            &self.c_shr_mac,
            &self.data.lambda_shr_mac,
            temp_x.as_slice(),
            temp_y.as_slice(),
            &temp_xy,
            key_wide,
            dim_row,
            dim_mid,
            dim_col,
        );
        proof {
            assert(values(delta_z_shr@).len() == delta_z_shr@.len());
            assert(values(self.c_shr@).len() == dim_row * dim_col);
            assert(values(self.data.lambda_shr@).len() == dim_row * dim_col);
        }
        let r = slice_as_bytes(delta_z_shr.as_slice());
        self.delta_z_shr = delta_z_shr;
        self.delta_z_mac = delta_z_mac;
        r
    }

    /// The second half: with the other party's share of Delta_z, Delta_z is
    /// the sum of both shares, kept to its low K bits; the preprocessing data
    /// is freed.
    pub fn online_finish(&mut self, received: &Vec<u8>)
        requires
            size_ok(old(self).gate_data().dim_row as int, old(self).gate_data().dim_col as int),
            old(self).pending_seq().len() == old(self).gate_data().dim_row * old(self).gate_data().dim_col,
            received@.len() == bytes_of::<S::SemiShrType>(old(self).gate_data().dim_row * old(self).gate_data().dim_col),
        ensures
            final(self).gate_data() == (GateData::<S> {
                delta_clear: final(self).gate_data().delta_clear,
                evaluated_online: true,
                ..old(self).gate_data()
            }),
            final(self).mid() == old(self).mid(),
            final(self).freed(),
            final(self).gate_data().delta_clear@.len() == old(self).gate_data().dim_row * old(self).gate_data().dim_col,
            forall|i: int| 0 <= i < final(self).gate_data().delta_clear@.len() ==> #[trigger] final(self).gate_data().delta_clear@[i].value() == ((decoded::<S::SemiShrType>(received@)[i].value() + old(self).pending_seq()[i].value()) % modulus::<S::SemiShrType>()) % (pow2(S::K_BITS as nat) as int),
    {
        let size_output = self.data.dim_row * self.data.dim_col;
        proof {
            lemma_bytes_of_fits::<S::SemiShrType>(size_output as int);
        }
        let mut delta = read_piece::<S::SemiShrType>(received, size_output);
        let ghost rcv = delta@;
        matrix_add_assign(&mut delta, self.delta_z_shr.as_slice());
        proof {
            assert forall|i: int| 0 <= i < delta@.len() implies #[trigger] delta@[i].value() == (rcv[i].value() + self.delta_z_shr@[i].value()) % modulus::<S::SemiShrType>() by {
                assert(values(delta@).subrange(0, size_output as int)[i] == delta@[i].value());
            }
        }
        S::remove_upper_bits_inplace(&mut delta);
        self.data.delta_clear = delta;
        self.data.evaluated_online = true;
        self.a_shr = Vec::new();
        self.a_shr_mac = Vec::new();
        self.b_shr = Vec::new();
        self.b_shr_mac = Vec::new();
        self.c_shr = Vec::new();
        self.c_shr_mac = Vec::new();
        self.delta_x_clear = Vec::new();
        self.delta_y_clear = Vec::new();
        self.delta_z_shr = Vec::new();
        self.delta_z_mac = Vec::new();
    }
}

impl<S: Spdz2kShare> MultiplyGate<S> {
    /// Exchanges this gate's mask shares (and MAC shares) with the given ones.
    pub fn swap_lambda(&mut self, lambda_shr: &mut Vec<S::SemiShrType>, lambda_shr_mac: &mut Vec<S::SemiShrType>)
        ensures
            final(self).gate_data() == (GateData::<S> {
                lambda_shr: *old(lambda_shr),
                lambda_shr_mac: *old(lambda_shr_mac),
                ..old(self).gate_data()
            }),
            *final(lambda_shr) == old(self).gate_data().lambda_shr,
            *final(lambda_shr_mac) == old(self).gate_data().lambda_shr_mac,
            final(self).mid() == old(self).mid(),
            final(self).triple_state() == old(self).triple_state(),
            final(self).pending_seq() == old(self).pending_seq(),
            final(self).pending_mac_seq() == old(self).pending_mac_seq(),
            final(self).freed() == old(self).freed(),
    {
        std::mem::swap(lambda_shr, &mut self.data.lambda_shr);
        std::mem::swap(lambda_shr_mac, &mut self.data.lambda_shr_mac);
    }

    /// Drops the fractional bits of Delta: Delta / 2^FRACTION_BITS.
    pub fn truncate_delta(&mut self)
        ensures
            final(self).gate_data() == (GateData::<S> { delta_clear: final(self).gate_data().delta_clear, ..old(self).gate_data() }),
            values(final(self).gate_data().delta_clear@) == values(old(self).gate_data().delta_clear@).map_values(|v: int| truncated(v)),
            final(self).mid() == old(self).mid(),
            final(self).triple_state() == old(self).triple_state(),
            final(self).pending_seq() == old(self).pending_seq(),
            final(self).pending_mac_seq() == old(self).pending_mac_seq(),
            final(self).freed() == old(self).freed(),
    {
        truncate_clear_vec_inplace(&mut self.data.delta_clear);
    }
}

/// Law: the parties exchange their shares of Delta_z, so both end with the
/// same Delta_z: each adds the share it received to its own.
pub proof fn lemma_product_delta_agrees<T: ShareElement>(own0: Seq<T>, own1: Seq<T>, i: int)
    requires
        own0.len() == own1.len(),
        0 <= i < own0.len(),
    ensures
        decoded::<T>(seq_to_bytes(own1))[i].value() + own0[i].value()
            == decoded::<T>(seq_to_bytes(own0))[i].value() + own1[i].value(),
{
    crate::share::lemma_decoded_roundtrip(own0);
    crate::share::lemma_decoded_roundtrip(own1);
}

impl<S: Spdz2kShare> Gate<S> for MultiplyGate<S> {
    closed spec fn gate_data(&self) -> GateData<S> {
        self.data
    }

    open spec fn gate_name(&self) -> Seq<char> {
        "MultiplyGate"@
    }

    fn name(&self) -> &'static str {
        "MultiplyGate"
    }

    fn dim_row(&self) -> usize {
        self.data.dim_row
    }

    fn dim_col(&self) -> usize {
        self.data.dim_col
    }

    fn lambda_shr(&self) -> &Vec<S::SemiShrType> {
        &self.data.lambda_shr
    }

    fn lambda_shr_mac(&self) -> &Vec<S::SemiShrType> {
        &self.data.lambda_shr_mac
    }

    fn delta_clear(&self) -> &Vec<S::SemiShrType> {
        &self.data.delta_clear
    }

    fn input_x(&self) -> Option<usize> {
        self.data.input_x
    }

    fn input_y(&self) -> Option<usize> {
        self.data.input_y
    }

    fn is_read_offline(&self) -> bool {
        self.data.read_offline
    }

    fn is_evaluated_online(&self) -> bool {
        self.data.evaluated_online
    }
}


/// Party i's preprocessing data of a product gate, piece by piece: its
/// shares of a, b, c and lambda_z, each followed by their MACs, then the
/// corrections delta_x and delta_y taken into the share ring.
pub open spec fn dealing_pieces<S: Spdz2kShare, const N: usize>(d: MultiplyDealing<S, N>, i: int) -> Seq<Seq<u8>> {
    seq![
        seq_to_bytes(d.a.value_shares@[i]@),
        seq_to_bytes(d.a.mac_shares@[i]@),
        seq_to_bytes(d.b.value_shares@[i]@),
        seq_to_bytes(d.b.mac_shares@[i]@),
        seq_to_bytes(d.c.value_shares@[i]@),
        seq_to_bytes(d.c.mac_shares@[i]@),
        seq_to_bytes(d.lambda.value_shares@[i]@),
        seq_to_bytes(d.lambda.mac_shares@[i]@),
        seq_to_bytes(d.delta_x@.map_values(|c: S::ClearType| wide::<S>(c))),
        seq_to_bytes(d.delta_y@.map_values(|c: S::ClearType| wide::<S>(c))),
    ]
}

/// Law (the preprocessing file of a product gate): the bytes the dealer
/// writes for party i are, in order, pieces of the lengths the party's gate
/// reads (its offline layout), and each piece decodes to what was dealt:
/// the party's shares of the triple and of lambda_z with their MACs, and
/// the corrections.
pub proof fn lemma_product_file_agrees<S: Spdz2kShare, const N: usize>(
    d: MultiplyDealing<S, N>,
    lx: Seq<S::ClearType>,
    ly: Seq<S::ClearType>,
    rows: int,
    mid: int,
    cols: int,
    key: int,
    i: int,
)
    requires
        matmul_dealing_ok(d, lx, ly, rows, mid, cols, key),
        0 <= i < N,
        0 <= rows && 0 <= mid && 0 <= cols,
        lx.len() == rows * mid,
        ly.len() == mid * cols,
        size_ok(rows, mid),
        size_ok(mid, cols),
        size_ok(rows, cols),
    ensures
        dealing_pieces(d, i).len() == 10,
        dealing_pieces(d, i).flatten_alt() == dealing_bytes(d, i),
        forall|k: int| 0 <= k < 10 ==> #[trigger] dealing_pieces(d, i)[k].len() == multiply_layout::<S::SemiShrType>(rows, mid, cols)[k],
        decoded::<S::SemiShrType>(dealing_pieces(d, i)[0]) == d.a.value_shares@[i]@,
        decoded::<S::SemiShrType>(dealing_pieces(d, i)[1]) == d.a.mac_shares@[i]@,
        decoded::<S::SemiShrType>(dealing_pieces(d, i)[2]) == d.b.value_shares@[i]@,
        decoded::<S::SemiShrType>(dealing_pieces(d, i)[3]) == d.b.mac_shares@[i]@,
        decoded::<S::SemiShrType>(dealing_pieces(d, i)[4]) == d.c.value_shares@[i]@,
        decoded::<S::SemiShrType>(dealing_pieces(d, i)[5]) == d.c.mac_shares@[i]@,
        decoded::<S::SemiShrType>(dealing_pieces(d, i)[6]) == d.lambda.value_shares@[i]@,
        decoded::<S::SemiShrType>(dealing_pieces(d, i)[7]) == d.lambda.mac_shares@[i]@,
        decoded::<S::SemiShrType>(dealing_pieces(d, i)[8]) == d.delta_x@.map_values(|c: S::ClearType| wide::<S>(c)),
        decoded::<S::SemiShrType>(dealing_pieces(d, i)[9]) == d.delta_y@.map_values(|c: S::ClearType| wide::<S>(c)),
{
    let p = dealing_pieces(d, i);
    let w = S::SemiShrType::width() / 8;
    let dx = d.delta_x@.map_values(|c: S::ClearType| wide::<S>(c));
    let dy = d.delta_y@.map_values(|c: S::ClearType| wide::<S>(c));
    crate::share::lemma_decoded_roundtrip(d.a.value_shares@[i]@);
    crate::share::lemma_decoded_roundtrip(d.a.mac_shares@[i]@);
    crate::share::lemma_decoded_roundtrip(d.b.value_shares@[i]@);
    crate::share::lemma_decoded_roundtrip(d.b.mac_shares@[i]@);
    crate::share::lemma_decoded_roundtrip(d.c.value_shares@[i]@);
    crate::share::lemma_decoded_roundtrip(d.c.mac_shares@[i]@);
    crate::share::lemma_decoded_roundtrip(d.lambda.value_shares@[i]@);
    crate::share::lemma_decoded_roundtrip(d.lambda.mac_shares@[i]@);
    crate::share::lemma_decoded_roundtrip(dx);
    crate::share::lemma_decoded_roundtrip(dy);
    // the lengths
    assert(d.a.value_shares@[i]@.len() == rows * mid && d.a.mac_shares@[i]@.len() == rows * mid);
    assert(d.b.value_shares@[i]@.len() == mid * cols && d.b.mac_shares@[i]@.len() == mid * cols);
    assert(d.c.value_shares@[i]@.len() == rows * cols && d.c.mac_shares@[i]@.len() == rows * cols);
    assert(d.lambda.value_shares@[i]@.len() == rows * cols && d.lambda.mac_shares@[i]@.len() == rows * cols);
    assert(values(d.delta_x@).len() == rows * mid);
    assert(values(d.delta_y@).len() == mid * cols);
    assert(dx.len() == rows * mid && dy.len() == mid * cols);
    crate::gate::lemma_bytes_of_fits::<S::SemiShrType>(rows * mid);
    crate::gate::lemma_bytes_of_fits::<S::SemiShrType>(mid * cols);
    crate::gate::lemma_bytes_of_fits::<S::SemiShrType>(rows * cols);
    assert forall|k: int| 0 <= k < 10 implies #[trigger] p[k].len() == multiply_layout::<S::SemiShrType>(rows, mid, cols)[k] by {
    }
    // the concatenation
    assert(crate::dealer::widened_bytes::<S>(d.delta_x@) == p[8]);
    assert(crate::dealer::widened_bytes::<S>(d.delta_y@) == p[9]);
    reveal_with_fuel(Seq::<Seq<u8>>::flatten_alt, 11);
    assert(p.drop_last().drop_last().drop_last().drop_last().drop_last().drop_last().drop_last().drop_last().drop_last().drop_last().len() == 0);
    assert(p.flatten_alt() =~= dealing_bytes(d, i));
}
} // verus!
