//! Multiplication gates for fixed-point values: a matrix product whose
//! Delta is truncated by FRACTION_BITS, with the truncated mask lambda'
//! taking the place of lambda_z.
use crate::fixed_point::truncated;
use crate::gate::{byte_len, bytes_of, fresh, lemma_bytes_of_fits, pieces_match, read_piece, size_ok, Gate, GateData};
use crate::dealer::shares_hide;
use crate::fake_multiply_gate::{dealing_bytes, matmul_dealing_ok, MultiplyDealing};
use crate::multiply_gate::{dealing_pieces, lemma_product_file_agrees, multiply_layout, MultiplyGate};
use crate::share::{decoded, modulus, seq_to_bytes, values, ShareElement, Spdz2kShare};
use vstd::arithmetic::power2::pow2;
use vstd::prelude::*;

verus! {

pub struct MultiplyTruncGate<S: Spdz2kShare> {
    inner: MultiplyGate<S>,
    lambda_prime_shr: Vec<S::SemiShrType>,
    lambda_prime_shr_mac: Vec<S::SemiShrType>,
}

/// The layout of a truncating product: that of the product, then the shares
/// of the truncated mask and of its MAC.
pub open spec fn multiply_trunc_layout<T: ShareElement>(rows: int, mid: int, cols: int) -> Seq<usize> {
    let o = bytes_of::<T>(rows * cols) as usize;
    multiply_layout::<T>(rows, mid, cols) + seq![o, o]
}

impl<S: Spdz2kShare> MultiplyTruncGate<S> {
    /// The product this gate runs.
    pub closed spec fn inner_spec(&self) -> MultiplyGate<S> {
        self.inner
    }

    /// The shares of the truncated mask (before the online step) or of the
    /// mask of the product (after it).
    pub closed spec fn lambda_prime_seq(&self) -> Seq<S::SemiShrType> {
        self.lambda_prime_shr@
    }

    pub closed spec fn lambda_prime_mac_seq(&self) -> Seq<S::SemiShrType> {
        self.lambda_prime_shr_mac@
    }

    pub fn new(input_x: usize, input_y: usize, dim_row: usize, dim_mid: usize, dim_col: usize) -> (r: Self)
        ensures
            fresh(r.gate_data(), dim_row, dim_col, Some(input_x), Some(input_y)),
            r.inner_spec().mid() == dim_mid,
            r.inner_spec().freed(),
    {
        MultiplyTruncGate {
            inner: MultiplyGate::new(input_x, input_y, dim_row, dim_mid, dim_col),
            lambda_prime_shr: Vec::new(),
            lambda_prime_shr_mac: Vec::new(),
        }
    }

    pub fn get_dim_mid(&self) -> (r: usize)
        ensures
            r == self.inner_spec().mid(),
    {
        self.inner.get_dim_mid()
    }

    /// Whether all preprocessing data of the product is there.
    pub fn offline_ready(&self) -> (r: bool)
        requires
            size_ok(self.gate_data().dim_row as int, self.inner_spec().mid() as int),
            size_ok(self.inner_spec().mid() as int, self.gate_data().dim_col as int),
            size_ok(self.gate_data().dim_row as int, self.gate_data().dim_col as int),
        ensures
            r == self.inner_spec().offline_ok(),
    {
        self.inner.offline_ready()
    }

    pub fn offline_layout(&self) -> (r: Vec<usize>)
        requires
            size_ok(self.gate_data().dim_row as int, self.inner_spec().mid() as int),
            size_ok(self.inner_spec().mid() as int, self.gate_data().dim_col as int),
            size_ok(self.gate_data().dim_row as int, self.gate_data().dim_col as int),
        ensures
            r@ == multiply_trunc_layout::<S::SemiShrType>(self.gate_data().dim_row as int, self.inner_spec().mid() as int, self.gate_data().dim_col as int),
    {
        let mut r = self.inner.offline_layout();
        let o = byte_len::<S::SemiShrType>(self.inner.dim_row() * self.inner.dim_col());
        r.push(o);
        r.push(o);
        assert(r@ =~= multiply_trunc_layout::<S::SemiShrType>(self.gate_data().dim_row as int, self.inner_spec().mid() as int, self.gate_data().dim_col as int));
        r
    }

    /// Takes the pieces of `offline_layout`, in order.
    pub fn do_read_offline(&mut self, pieces: &Vec<Vec<u8>>)
        requires
            size_ok(old(self).gate_data().dim_row as int, old(self).inner_spec().mid() as int),
            size_ok(old(self).inner_spec().mid() as int, old(self).gate_data().dim_col as int),
            size_ok(old(self).gate_data().dim_row as int, old(self).gate_data().dim_col as int),
            pieces_match(pieces@, multiply_trunc_layout::<S::SemiShrType>(old(self).gate_data().dim_row as int, old(self).inner_spec().mid() as int, old(self).gate_data().dim_col as int)),
        ensures
            final(self).gate_data() == (GateData::<S> {
                lambda_shr: final(self).gate_data().lambda_shr,
                lambda_shr_mac: final(self).gate_data().lambda_shr_mac,
                read_offline: true,
                ..old(self).gate_data()
            }),
            final(self).inner_spec().mid() == old(self).inner_spec().mid(),
            final(self).inner_spec().offline_ok(),
            final(self).inner_spec().pending_seq() == old(self).inner_spec().pending_seq(),
            final(self).inner_spec().a_seq() == decoded::<S::SemiShrType>(pieces@[0]@),
            final(self).inner_spec().a_mac_seq() == decoded::<S::SemiShrType>(pieces@[1]@),
            final(self).inner_spec().b_seq() == decoded::<S::SemiShrType>(pieces@[2]@),
            final(self).inner_spec().b_mac_seq() == decoded::<S::SemiShrType>(pieces@[3]@),
            final(self).inner_spec().c_seq() == decoded::<S::SemiShrType>(pieces@[4]@),
            final(self).inner_spec().c_mac_seq() == decoded::<S::SemiShrType>(pieces@[5]@),
            final(self).inner_spec().dx_seq() == decoded::<S::SemiShrType>(pieces@[8]@),
            final(self).inner_spec().dy_seq() == decoded::<S::SemiShrType>(pieces@[9]@),
            final(self).gate_data().lambda_shr@ == decoded::<S::SemiShrType>(pieces@[6]@),
            final(self).gate_data().lambda_shr_mac@ == decoded::<S::SemiShrType>(pieces@[7]@),
            final(self).lambda_prime_seq() == decoded::<S::SemiShrType>(pieces@[10]@),
            final(self).lambda_prime_mac_seq() == decoded::<S::SemiShrType>(pieces@[11]@),
            final(self).lambda_prime_seq().len() == old(self).gate_data().dim_row * old(self).gate_data().dim_col,
            final(self).lambda_prime_mac_seq().len() == old(self).gate_data().dim_row * old(self).gate_data().dim_col,
    {
        proof {
            let layout = multiply_layout::<S::SemiShrType>(self.gate_data().dim_row as int, self.inner_spec().mid() as int, self.gate_data().dim_col as int);
            let full = multiply_trunc_layout::<S::SemiShrType>(self.gate_data().dim_row as int, self.inner_spec().mid() as int, self.gate_data().dim_col as int);
            assert forall|j: int| 0 <= j < 10 implies #[trigger] pieces@.subrange(0, 10)[j]@.len() == layout[j] by {
                assert(full[j] == layout[j]);
            }
        }
        self.inner.do_read_offline_base(pieces);
        let size_output = self.inner.dim_row() * self.inner.dim_col();
        proof {
            lemma_bytes_of_fits::<S::SemiShrType>(size_output as int);
        }
        self.lambda_prime_shr = read_piece::<S::SemiShrType>(&pieces[10], size_output);
        self.lambda_prime_shr_mac = read_piece::<S::SemiShrType>(&pieces[11], size_output);
    }

    /// The first half of the online step: that of the product.
    pub fn online_message(&mut self, delta_x: &[S::SemiShrType], delta_y: &[S::SemiShrType], my_id: usize, global_key_shr: S::GlobalKeyType) -> (r: Vec<u8>)
        requires
            size_ok(old(self).gate_data().dim_row as int, old(self).inner_spec().mid() as int),
            size_ok(old(self).inner_spec().mid() as int, old(self).gate_data().dim_col as int),
            size_ok(old(self).gate_data().dim_row as int, old(self).gate_data().dim_col as int),
            old(self).inner_spec().offline_ok(),
            delta_x@.len() == old(self).gate_data().dim_row * old(self).inner_spec().mid(),
            delta_y@.len() == old(self).inner_spec().mid() * old(self).gate_data().dim_col,
        ensures
            final(self).gate_data() == old(self).gate_data(),
            final(self).lambda_prime_seq() == old(self).lambda_prime_seq(),
            final(self).lambda_prime_mac_seq() == old(self).lambda_prime_mac_seq(),
            final(self).inner_spec().triple_state() == old(self).inner_spec().triple_state(),
            final(self).inner_spec().mid() == old(self).inner_spec().mid(),
            final(self).inner_spec().offline_ok(),
            final(self).inner_spec().pending_seq().len() == old(self).gate_data().dim_row * old(self).gate_data().dim_col,
            values(final(self).inner_spec().pending_seq()) == crate::beaver::matmul_share(
                values(old(self).inner_spec().a_seq()),
                values(old(self).inner_spec().b_seq()),
                values(old(self).inner_spec().c_seq()),
                values(old(self).gate_data().lambda_shr@),
                crate::ring::seq_add(values(delta_x@), values(old(self).inner_spec().dx_seq()), modulus::<S::SemiShrType>()),
                crate::ring::seq_add(values(delta_y@), values(old(self).inner_spec().dy_seq()), modulus::<S::SemiShrType>()),
                old(self).gate_data().dim_row as int,
                old(self).inner_spec().mid() as int,
                old(self).gate_data().dim_col as int,
                modulus::<S::SemiShrType>(),
                my_id == 0,
            ),
            r@ == crate::share::seq_to_bytes(final(self).inner_spec().pending_seq()),
    {
        self.inner.online_message(delta_x, delta_y, my_id, global_key_shr)
    }

    /// The second half: Delta_z of the product, truncated; the shares of the
    /// truncated mask become this gate's mask shares.
    pub fn online_finish(&mut self, received: &Vec<u8>)
        requires
            size_ok(old(self).gate_data().dim_row as int, old(self).gate_data().dim_col as int),
            old(self).inner_spec().pending_seq().len() == old(self).gate_data().dim_row * old(self).gate_data().dim_col,
            received@.len() == bytes_of::<S::SemiShrType>(old(self).gate_data().dim_row * old(self).gate_data().dim_col),
        ensures
            final(self).gate_data() == (GateData::<S> {
                delta_clear: final(self).gate_data().delta_clear,
                lambda_shr: final(self).gate_data().lambda_shr,
                lambda_shr_mac: final(self).gate_data().lambda_shr_mac,
                evaluated_online: true,
                ..old(self).gate_data()
            }),
            final(self).gate_data().lambda_shr@ == old(self).lambda_prime_seq(),
            final(self).gate_data().lambda_shr_mac@ == old(self).lambda_prime_mac_seq(),
            final(self).lambda_prime_seq() == old(self).gate_data().lambda_shr@,
            final(self).lambda_prime_mac_seq() == old(self).gate_data().lambda_shr_mac@,
            final(self).inner_spec().freed(),
            final(self).inner_spec().mid() == old(self).inner_spec().mid(),
            final(self).gate_data().delta_clear@.len() == old(self).gate_data().dim_row * old(self).gate_data().dim_col,
            forall|i: int| 0 <= i < final(self).gate_data().delta_clear@.len() ==> #[trigger] final(self).gate_data().delta_clear@[i].value() == truncated(((decoded::<S::SemiShrType>(received@)[i].value() + old(self).inner_spec().pending_seq()[i].value()) % modulus::<S::SemiShrType>()) % (pow2(S::K_BITS as nat) as int)),
    {
        self.inner.online_finish(received);
        let ghost before = self.inner.gate_data().delta_clear@;
        self.inner.swap_lambda(&mut self.lambda_prime_shr, &mut self.lambda_prime_shr_mac);
        self.inner.truncate_delta();
        proof {
            let after = self.inner.gate_data().delta_clear@;
            assert(values(after) == values(before).map_values(|v: int| truncated(v)));
            assert(values(after).len() == after.len());
            assert(values(before).len() == before.len());
            assert forall|i: int| 0 <= i < after.len() implies #[trigger] after[i].value() == truncated(before[i].value()) by {
                assert(values(after)[i] == after[i].value());
                assert(values(before)[i] == before[i].value());
                assert(values(after)[i] == values(before).map_values(|v: int| truncated(v))[i]);
            }
        }
    }
}

impl<S: Spdz2kShare> Gate<S> for MultiplyTruncGate<S> {
    closed spec fn gate_data(&self) -> GateData<S> {
        self.inner.gate_data()
    }

    open spec fn gate_name(&self) -> Seq<char> {
        "MultiplyTruncGate"@
    }

    fn name(&self) -> &'static str {
        "MultiplyTruncGate"
    }

    fn dim_row(&self) -> usize {
        self.inner.dim_row()
    }

    fn dim_col(&self) -> usize {
        self.inner.dim_col()
    }

    fn lambda_shr(&self) -> &Vec<S::SemiShrType> {
        self.inner.lambda_shr()
    }

    fn lambda_shr_mac(&self) -> &Vec<S::SemiShrType> {
        self.inner.lambda_shr_mac()
    }

    fn delta_clear(&self) -> &Vec<S::SemiShrType> {
        self.inner.delta_clear()
    }

    fn input_x(&self) -> Option<usize> {
        self.inner.input_x()
    }

    fn input_y(&self) -> Option<usize> {
        self.inner.input_y()
    }

    fn is_read_offline(&self) -> bool {
        self.inner.is_read_offline()
    }

    fn is_evaluated_online(&self) -> bool {
        self.inner.is_evaluated_online()
    }
}


/// Party i's preprocessing data of a product gate with truncation, piece by
/// piece: the pieces of the product's dealing, then its shares of the
/// truncated mask and of its MAC.
pub open spec fn trunc_pieces<S: Spdz2kShare, const N: usize>(d: MultiplyDealing<S, N>, trunc_shr: Seq<Vec<S::SemiShrType>>, trunc_mac: Seq<Vec<S::SemiShrType>>, i: int) -> Seq<Seq<u8>> {
    dealing_pieces(d, i) + seq![seq_to_bytes(trunc_shr[i]@), seq_to_bytes(trunc_mac[i]@)]
}

/// Law (the preprocessing file of a product gate with truncation): the bytes
/// the dealer writes for party i are, in order, the pieces of the product's
/// dealing followed by the party's shares of the truncated mask and of its
/// MAC, of the lengths such a gate reads; the last two decode to those shares.
pub proof fn lemma_trunc_file_agrees<S: Spdz2kShare, const N: usize>(
    d: MultiplyDealing<S, N>,
    lx: Seq<S::ClearType>,
    ly: Seq<S::ClearType>,
    rows: int,
    mid: int,
    cols: int,
    key: int,
    trunc_shr: Seq<Vec<S::SemiShrType>>,
    trunc_mac: Seq<Vec<S::SemiShrType>>,
    trunc_clear: Seq<int>,
    i: int,
)
    requires
        matmul_dealing_ok(d, lx, ly, rows, mid, cols, key),
        shares_hide::<S>(trunc_shr, trunc_mac, trunc_clear, key, N as int),
        trunc_clear.len() == rows * cols,
        0 <= i < N,
        0 <= rows && 0 <= mid && 0 <= cols,
        lx.len() == rows * mid,
        ly.len() == mid * cols,
        size_ok(rows, mid),
        size_ok(mid, cols),
        size_ok(rows, cols),
    ensures
        trunc_pieces(d, trunc_shr, trunc_mac, i).len() == 12,
        trunc_pieces(d, trunc_shr, trunc_mac, i).flatten_alt() == dealing_bytes(d, i) + seq_to_bytes(trunc_shr[i]@) + seq_to_bytes(trunc_mac[i]@),
        forall|k: int| 0 <= k < 12 ==> #[trigger] trunc_pieces(d, trunc_shr, trunc_mac, i)[k].len() == multiply_trunc_layout::<S::SemiShrType>(rows, mid, cols)[k],
        decoded::<S::SemiShrType>(seq_to_bytes(trunc_shr[i]@)) == trunc_shr[i]@,
        decoded::<S::SemiShrType>(seq_to_bytes(trunc_mac[i]@)) == trunc_mac[i]@,
{
    lemma_product_file_agrees(d, lx, ly, rows, mid, cols, key, i);
    let p10 = dealing_pieces(d, i);
    let s1 = seq_to_bytes(trunc_shr[i]@);
    let s2 = seq_to_bytes(trunc_mac[i]@);
    let p = p10 + seq![s1, s2];
    crate::share::lemma_decoded_roundtrip(trunc_shr[i]@);
    crate::share::lemma_decoded_roundtrip(trunc_mac[i]@);
    assert(trunc_shr[i]@.len() == rows * cols && trunc_mac[i]@.len() == rows * cols);
    lemma_bytes_of_fits::<S::SemiShrType>(rows * cols);
    assert forall|k: int| 0 <= k < 12 implies #[trigger] p[k].len() == multiply_trunc_layout::<S::SemiShrType>(rows, mid, cols)[k] by {
        if k < 10 {
            assert(p[k] == p10[k]);
            assert(multiply_trunc_layout::<S::SemiShrType>(rows, mid, cols)[k] == multiply_layout::<S::SemiShrType>(rows, mid, cols)[k]);
        }
    }
    assert(p.drop_last() =~= p10.push(s1));
    assert(p.drop_last().drop_last() =~= p10);
    assert(p.flatten_alt() == p.drop_last().flatten_alt() + s2);
    assert(p.drop_last().flatten_alt() == p10.flatten_alt() + s1);
}
} // verus!
