//! Input gates: the owner knows the value x and the mask lambda, publishes
//! Delta = x + lambda; the other party receives it.
use crate::dealer::{shares_hide, wide, widened_bytes};
use crate::fake_gate::FakeGateData;
use crate::gate::{byte_len, bytes_of, fresh, read_piece, size_ok, Gate, GateData};
use crate::linear_algebra::matrix_add;
use crate::ring::seq_add;
use crate::share::{
    decoded, lemma_decoded_roundtrip, modulus, seq_to_bytes, slice_as_bytes, values, widen_all,
    ShareElement, Spdz2kShare,
};
use vstd::prelude::*;

verus! {

pub struct InputGate<S: Spdz2kShare> {
    pub data: GateData<S>,
    owner_id: usize,
    lambda_clear: Vec<S::SemiShrType>,
    input_value: Vec<S::SemiShrType>,
}

impl<S: Spdz2kShare> InputGate<S> {
    /// The party that provides the input.
    pub closed spec fn owner(&self) -> usize {
        self.owner_id
    }

    /// The clear mask, known to the owner only.
    pub closed spec fn lambda_clear_seq(&self) -> Seq<S::SemiShrType> {
        self.lambda_clear@
    }

    /// The owner's input, in the share ring.
    pub closed spec fn input_seq(&self) -> Seq<S::SemiShrType> {
        self.input_value@
    }

    pub fn new(dim_row: usize, dim_col: usize, owner_id: usize) -> (r: Self)
        ensures
            fresh(r.gate_data(), dim_row, dim_col, None, None),
            r.owner() == owner_id,
            r.lambda_clear_seq().len() == 0,
            r.input_seq().len() == 0,
    {
        InputGate {
            data: GateData::new_with_dims(dim_row, dim_col),
            owner_id,
            lambda_clear: Vec::new(),
            input_value: Vec::new(),
        }
    }

    pub fn owner_id(&self) -> (r: usize)
        ensures
            r == self.owner(),
    {
        self.owner_id
    }

    /// The owner sets its input (a dim_row x dim_col matrix of clear values).
    pub fn set_input(&mut self, input_value: &[S::ClearType], my_id: usize)
        requires
            my_id == old(self).owner(),
            input_value@.len() == old(self).gate_data().dim_row * old(self).gate_data().dim_col,
        ensures
            final(self).gate_data() == old(self).gate_data(),
            final(self).owner() == old(self).owner(),
            final(self).lambda_clear_seq() == old(self).lambda_clear_seq(),
            final(self).input_seq().len() == input_value@.len(),
            values(final(self).input_seq()) == values(input_value@),
    {
        proof {
            S::lemma_widths();
        }
        self.input_value = widen_all::<S::ClearType, S::SemiShrType>(input_value);
    }

    /// The byte lengths of the pieces this party reads: the clear mask (owner
    /// only), then the shares of the mask and of its MAC.
    pub fn offline_layout(&self, my_id: usize) -> (r: Vec<usize>)
        requires
            size_ok(self.gate_data().dim_row as int, self.gate_data().dim_col as int),
        ensures
            r@ == self.layout_spec(my_id),
    {
        let size = self.data.dim_row * self.data.dim_col;
        let b = byte_len::<S::SemiShrType>(size);
        let mut r: Vec<usize> = Vec::new();
        if my_id == self.owner_id {
            r.push(b);
        }
        r.push(b);
        r.push(b);
        proof {
            if my_id == self.owner_id {
                assert(r@ =~= seq![b, b, b]);
            } else {
                assert(r@ =~= seq![b, b]);
            }
        }
        r
    }

    pub closed spec fn layout_spec(&self, my_id: usize) -> Seq<usize> {
        let b = bytes_of::<S::SemiShrType>(self.data.dim_row * self.data.dim_col) as usize;
        if my_id == self.owner_id {
            seq![b, b, b]
        } else {
            seq![b, b]
        }
    }

    /// Takes the pieces of `offline_layout`, in order.
    pub fn do_read_offline(&mut self, pieces: &Vec<Vec<u8>>, my_id: usize)
        requires
            size_ok(old(self).gate_data().dim_row as int, old(self).gate_data().dim_col as int),
            crate::gate::pieces_match(pieces@, old(self).layout_spec(my_id)),
        ensures
            final(self).owner() == old(self).owner(),
            final(self).input_seq() == old(self).input_seq(),
            final(self).gate_data() == (GateData::<S> {
                lambda_shr: final(self).gate_data().lambda_shr,
                lambda_shr_mac: final(self).gate_data().lambda_shr_mac,
                read_offline: true,
                ..old(self).gate_data()
            }),
            my_id == old(self).owner() ==> final(self).lambda_clear_seq() == decoded::<S::SemiShrType>(pieces@[0]@),
            my_id != old(self).owner() ==> final(self).lambda_clear_seq() == old(self).lambda_clear_seq(),
            final(self).gate_data().lambda_shr@ == decoded::<S::SemiShrType>(pieces@[pieces@.len() - 2]@),
            final(self).gate_data().lambda_shr_mac@ == decoded::<S::SemiShrType>(pieces@[pieces@.len() - 1]@),
            final(self).gate_data().lambda_shr@.len() == old(self).gate_data().dim_row * old(self).gate_data().dim_col,
            final(self).gate_data().lambda_shr_mac@.len() == old(self).gate_data().dim_row * old(self).gate_data().dim_col,
            my_id == old(self).owner() ==> final(self).lambda_clear_seq().len() == old(self).gate_data().dim_row * old(self).gate_data().dim_col,
    {
        let size = self.data.dim_row * self.data.dim_col;
        proof {
            crate::gate::lemma_bytes_of_fits::<S::SemiShrType>(size as int);
        }
        let mut k: usize = 0;
        if my_id == self.owner_id {
            self.lambda_clear = read_piece::<S::SemiShrType>(&pieces[0], size);
            k = 1;
        }
        self.data.lambda_shr = read_piece::<S::SemiShrType>(&pieces[k], size);
        self.data.lambda_shr_mac = read_piece::<S::SemiShrType>(&pieces[k + 1], size);
        self.data.read_offline = true;
    }

    /// The owner's online step: Delta = x + lambda, and its encoding to send.
    pub fn online_message(&mut self) -> (r: Vec<u8>)
        ensures
            final(self).owner() == old(self).owner(),
            final(self).input_seq() == old(self).input_seq(),
            final(self).lambda_clear_seq() == old(self).lambda_clear_seq(),
            final(self).gate_data() == (GateData::<S> {
                delta_clear: final(self).gate_data().delta_clear,
                evaluated_online: true,
                ..old(self).gate_data()
            }),
            values(final(self).gate_data().delta_clear@) == seq_add(values(old(self).input_seq()), values(old(self).lambda_clear_seq()), modulus::<S::SemiShrType>()),
            r@ == seq_to_bytes(final(self).gate_data().delta_clear@),
    {
        self.data.delta_clear = matrix_add(self.input_value.as_slice(), self.lambda_clear.as_slice());
        self.data.evaluated_online = true;
        slice_as_bytes(self.data.delta_clear.as_slice())
    }

    /// The other party's online step: Delta as received.
    pub fn online_receive(&mut self, bytes: &Vec<u8>)
        requires
            size_ok(old(self).gate_data().dim_row as int, old(self).gate_data().dim_col as int),
            bytes@.len() == bytes_of::<S::SemiShrType>(old(self).gate_data().dim_row * old(self).gate_data().dim_col),
        ensures
            final(self).owner() == old(self).owner(),
            final(self).input_seq() == old(self).input_seq(),
            final(self).lambda_clear_seq() == old(self).lambda_clear_seq(),
            final(self).gate_data() == (GateData::<S> {
                delta_clear: final(self).gate_data().delta_clear,
                evaluated_online: true,
                ..old(self).gate_data()
            }),
            final(self).gate_data().delta_clear@ == decoded::<S::SemiShrType>(bytes@),
            final(self).gate_data().delta_clear@.len() == old(self).gate_data().dim_row * old(self).gate_data().dim_col,
    {
        let size = self.data.dim_row * self.data.dim_col;
        self.data.delta_clear = read_piece::<S::SemiShrType>(bytes, size);
        self.data.evaluated_online = true;
    }
}

/// Law: what the owner sends is what the other party takes as Delta, so both
/// hold the same Delta = x + lambda.
pub proof fn lemma_input_delta_agrees<T: ShareElement>(sent: Seq<T>)
    ensures
        decoded::<T>(seq_to_bytes(sent)) == sent,
{
    lemma_decoded_roundtrip(sent);
}

impl<S: Spdz2kShare> Gate<S> for InputGate<S> {
    closed spec fn gate_data(&self) -> GateData<S> {
        self.data
    }

    open spec fn gate_name(&self) -> Seq<char> {
        "InputGate"@
    }

    fn name(&self) -> &'static str {
        "InputGate"
    }

    fn dim_row(&self) -> usize {
        self.data.dim_row
    }

    fn dim_col(&self) -> usize {
        self.data.dim_col
    }

    fn lambda_shr(&self) -> &Vec<S::SemiShrType> {
        &self.data.lambda_shr
    }

    fn lambda_shr_mac(&self) -> &Vec<S::SemiShrType> {
        &self.data.lambda_shr_mac
    }

    fn delta_clear(&self) -> &Vec<S::SemiShrType> {
        &self.data.delta_clear
    }

    fn input_x(&self) -> Option<usize> {
        self.data.input_x
    }

    fn input_y(&self) -> Option<usize> {
        self.data.input_y
    }

    fn is_read_offline(&self) -> bool {
        self.data.read_offline
    }

    fn is_evaluated_online(&self) -> bool {
        self.data.evaluated_online
    }
}


/// Party i's preprocessing data of an input gate, piece by piece: the owner
/// gets the clear mask (taken into the share ring) first; every party gets
/// its shares of the mask and of its MAC.
pub open spec fn input_pieces<S: Spdz2kShare, const N: usize>(fd: FakeGateData<S, N>, owner: usize, i: int) -> Seq<Seq<u8>> {
    let shares = seq![seq_to_bytes(fd.lambda_shr@[i]@), seq_to_bytes(fd.lambda_shr_mac@[i]@)];
    if i == owner {
        seq![widened_bytes::<S>(fd.lambda_clear@)] + shares
    } else {
        shares
    }
}

/// Law (the preprocessing file of an input gate): the bytes the dealer
/// writes for party i are, in order, pieces of the lengths that party's
/// input gate reads, and each piece decodes to what was dealt: the clear
/// mask for the owner, then the party's shares of the mask and of its MAC.
pub proof fn lemma_input_file_agrees<S: Spdz2kShare, const N: usize>(gate: InputGate<S>, fd: FakeGateData<S, N>, key: int, i: usize)
    requires
        i < N,
        size_ok(gate.gate_data().dim_row as int, gate.gate_data().dim_col as int),
        fd.lambda_clear@.len() == gate.gate_data().dim_row * gate.gate_data().dim_col,
        shares_hide::<S>(fd.lambda_shr@, fd.lambda_shr_mac@, values(fd.lambda_clear@), key, N as int),
    ensures
        input_pieces(fd, gate.owner(), i as int).len() == gate.layout_spec(i).len(),
        forall|k: int| 0 <= k < gate.layout_spec(i).len() ==> #[trigger] input_pieces(fd, gate.owner(), i as int)[k].len() == gate.layout_spec(i)[k],
        input_pieces(fd, gate.owner(), i as int).flatten_alt() == (if i == gate.owner() { widened_bytes::<S>(fd.lambda_clear@) } else { Seq::<u8>::empty() })
            + seq_to_bytes(fd.lambda_shr@[i as int]@) + seq_to_bytes(fd.lambda_shr_mac@[i as int]@),
        i == gate.owner() ==> decoded::<S::SemiShrType>(input_pieces(fd, gate.owner(), i as int)[0]) == fd.lambda_clear@.map_values(|c: S::ClearType| wide::<S>(c)),
        decoded::<S::SemiShrType>(input_pieces(fd, gate.owner(), i as int)[input_pieces(fd, gate.owner(), i as int).len() - 2]) == fd.lambda_shr@[i as int]@,
        decoded::<S::SemiShrType>(input_pieces(fd, gate.owner(), i as int)[input_pieces(fd, gate.owner(), i as int).len() - 1]) == fd.lambda_shr_mac@[i as int]@,
{
    let size = gate.gate_data().dim_row * gate.gate_data().dim_col;
    let p = input_pieces(fd, gate.owner(), i as int);
    let lc = fd.lambda_clear@.map_values(|c: S::ClearType| wide::<S>(c));
    crate::share::lemma_decoded_roundtrip(fd.lambda_shr@[i as int]@);
    crate::share::lemma_decoded_roundtrip(fd.lambda_shr_mac@[i as int]@);
    crate::share::lemma_decoded_roundtrip(lc);
    assert(fd.lambda_shr@[i as int]@.len() == size && fd.lambda_shr_mac@[i as int]@.len() == size);
    crate::gate::lemma_bytes_of_fits::<S::SemiShrType>(size);
    reveal_with_fuel(Seq::<Seq<u8>>::flatten_alt, 4);
    if i == gate.owner() {
        assert(p =~= seq![widened_bytes::<S>(fd.lambda_clear@), seq_to_bytes(fd.lambda_shr@[i as int]@), seq_to_bytes(fd.lambda_shr_mac@[i as int]@)]);
        assert(p.drop_last().drop_last().drop_last().len() == 0);
        assert(p.flatten_alt() =~= widened_bytes::<S>(fd.lambda_clear@) + seq_to_bytes(fd.lambda_shr@[i as int]@) + seq_to_bytes(fd.lambda_shr_mac@[i as int]@));
    } else {
        assert(p.drop_last().drop_last().len() == 0);
        assert(p.flatten_alt() =~= Seq::<u8>::empty() + seq_to_bytes(fd.lambda_shr@[i as int]@) + seq_to_bytes(fd.lambda_shr_mac@[i as int]@));
    }
}
} // verus!
