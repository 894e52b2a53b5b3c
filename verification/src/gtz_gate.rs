//! Greater-than-zero gates: the parties compare the public Delta_x with
//! their XOR-shared lambda_x bit by bit, by the carry out of
//! Delta_x + (not lambda_x) + 1, computed in rounds that halve the number of
//! positions; the result bit z is added to the shares of lambda_z and
//! Delta_z = lambda_z + z is opened.
use crate::bits::{pack_bits, packs, unpack_bits, msg_bit};
use crate::carry::{
    carry_round_combine, carry_round_message, fold_g, lemma_round_preserves_carry, reduced_len,
    round_bits, round_g_entry, round_p_entry, rows, shaped, xor_row,
};
use crate::compare::{
    bit_lt_operands, bits_of, carry_out_start, carry_result, lemma_bits_of_xor,
    lemma_carry_is_comparison, lemma_start_reconstructs, not_row,
};
use crate::dealer::shares_hide;
use crate::fake_gate::FakeGateData;
use crate::gate::{byte_len, bytes_of, fresh, lemma_bytes_of_fits, pieces_match, read_piece, size_ok, Gate, GateData};
use crate::linear_algebra::{matrix_add, matrix_add_assign};
use crate::ring::seq_add;
use crate::share::{
    decoded, modulus, seq_to_bytes, slice_as_bytes, values, widen, ShareElement, Spdz2kShare,
};
use vstd::arithmetic::power2::pow2;
use vstd::prelude::*;
use vstd::slice::slice_subrange;

verus! {

/// Where a gate is in its online phase.
pub enum GtzStage {
    /// Not started.
    Idle,
    /// A round of the carry computation was sent.
    Round,
    /// The result bits were sent.
    Bits,
    /// The share of Delta_z was sent.
    Opening,
    /// Evaluated.
    Finished,
}

pub struct GtzGate<S: Spdz2kShare> {
    pub data: GateData<S>,
    lambda_x_bin_shr: Vec<S::ClearType>,
    a: bool,
    b: bool,
    c: bool,
    p: Vec<Vec<bool>>,
    g: Vec<Vec<bool>>,
    k: usize,
    sendmsg: Vec<u8>,
    ret: Vec<bool>,
    stage: GtzStage,
}

/// Comparison gates this size hold their round messages in memory.
pub open spec fn gtz_size_ok(dim_row: int, dim_col: int) -> bool {
    dim_row * dim_col * 8192 <= usize::MAX
}

/// The bits of the public operand, or those of the party's share of the
/// mask, negated by party 0.
pub open spec fn operand_bits(v: int, w: int, negate: bool) -> Seq<bool> {
    if negate {
        not_row(bits_of(v, w))
    } else {
        bits_of(v, w)
    }
}

/// A party's start shares of the propagate bits: a ^ b for party 0, b for
/// party 1.
pub open spec fn start_p(a: Seq<bool>, b: Seq<bool>, first: bool) -> Seq<bool> {
    Seq::new(a.len(), |j: int| if first { a[j] != b[j] } else { b[j] })
}

/// A party's start shares of the generate bits: a & b, with the carry in
/// folded into position 0.
pub open spec fn start_g(a: Seq<bool>, b: Seq<bool>, first: bool, c_in: bool) -> Seq<bool> {
    Seq::new(
        a.len(),
        |j: int|
            if j == 0 {
                (a[0] && b[0]) != (c_in && start_p(a, b, first)[0])
            } else {
                a[j] && b[j]
            },
    )
}

/// The bytes of a round message on n rows and k positions: four bits per
/// pair of positions and row, packed.
pub open spec fn round_msg_len(n: int, k: int) -> int {
    (4 * (n * (k / 2)) + 7) / 8
}

/// The bytes of the MAC part that follows a round message (zero elements
/// of w bits, two per AND).
pub open spec fn round_mac_len(n: int, k: int, w: int) -> int {
    n * (k / 2) * 4 * (w / 8)
}

impl<S: Spdz2kShare> GtzGate<S> {
    /// The party's boolean (XOR) shares of lambda_x.
    pub closed spec fn bin_seq(&self) -> Seq<S::ClearType> {
        self.lambda_x_bin_shr@
    }

    /// The party's share (a, b, c) of the binary triple used in every AND.
    pub closed spec fn triple(&self) -> (bool, bool, bool) {
        (self.a, self.b, self.c)
    }

    /// The party's shares of the propagate bits, row by row.
    pub closed spec fn p_rows(&self) -> Seq<Seq<bool>> {
        rows(self.p@)
    }

    /// The party's shares of the generate bits, row by row.
    pub closed spec fn g_rows(&self) -> Seq<Seq<bool>> {
        rows(self.g@)
    }

    /// The number of positions left.
    pub closed spec fn positions(&self) -> usize {
        self.k
    }

    /// The last round message sent, without its MAC part.
    pub closed spec fn sent(&self) -> Seq<u8> {
        self.sendmsg@
    }

    /// The party's shares of the comparison bits.
    pub closed spec fn result_bits(&self) -> Seq<bool> {
        self.ret@
    }

    pub closed spec fn stage_spec(&self) -> GtzStage {
        self.stage
    }

    pub fn new(input_x: usize, dim_row: usize, dim_col: usize) -> (r: Self)
        ensures
            fresh(r.gate_data(), dim_row, dim_col, Some(input_x), None),
            r.triple() == (false, false, false),
            r.stage_spec() == GtzStage::Idle,
            r.bin_seq().len() == 0,
            gtz_size_ok(dim_row as int, dim_col as int) ==> r.online_ok(),
    {
        let mut data = GateData::new_with_inputs(input_x, None);
        data.dim_row = dim_row;
        data.dim_col = dim_col;
        GtzGate {
            data,
            lambda_x_bin_shr: Vec::new(),
            a: false,
            b: false,
            c: false,
            p: Vec::new(),
            g: Vec::new(),
            k: 0,
            sendmsg: Vec::new(),
            ret: Vec::new(),
            stage: GtzStage::Idle,
        }
    }

    pub fn stage(&self) -> (r: &GtzStage)
        ensures
            *r == self.stage_spec(),
    {
        &self.stage
    }

    /// Whether the online phase can start: the preprocessing data is there
    /// and this gate has not started.
    pub fn start_ready(&self) -> (r: bool)
        requires
            gtz_size_ok(self.gate_data().dim_row as int, self.gate_data().dim_col as int),
        ensures
            r == (self.bin_seq().len() == self.gate_data().dim_row * self.gate_data().dim_col
                && self.gate_data().lambda_shr@.len() == self.gate_data().dim_row * self.gate_data().dim_col
                && self.stage_spec() == GtzStage::Idle),
    {
        let size = self.data.dim_row * self.data.dim_col;
        let idle = match self.stage {
            GtzStage::Idle => true,
            _ => false,
        };
        self.lambda_x_bin_shr.len() == size && self.data.lambda_shr.len() == size && idle
    }

    /// The byte lengths of the pieces of preprocessing data: the shares of
    /// lambda_z and of its MAC, and the boolean shares of lambda_x.
    pub fn offline_layout(&self) -> (r: Vec<usize>)
        requires
            size_ok(self.gate_data().dim_row as int, self.gate_data().dim_col as int),
        ensures
            r@ == seq![
                bytes_of::<S::SemiShrType>(self.gate_data().dim_row * self.gate_data().dim_col) as usize,
                bytes_of::<S::SemiShrType>(self.gate_data().dim_row * self.gate_data().dim_col) as usize,
                bytes_of::<S::ClearType>(self.gate_data().dim_row * self.gate_data().dim_col) as usize,
            ],
    {
        let size = self.data.dim_row * self.data.dim_col;
        let b = byte_len::<S::SemiShrType>(size);
        let c = byte_len::<S::ClearType>(size);
        let r = vec![b, b, c];
        assert(r@ =~= seq![b, b, c]);
        r
    }

    /// Takes the pieces of `offline_layout`, in order.
    pub fn do_read_offline(&mut self, pieces: &Vec<Vec<u8>>)
        requires
            size_ok(old(self).gate_data().dim_row as int, old(self).gate_data().dim_col as int),
            pieces_match(pieces@, seq![
                bytes_of::<S::SemiShrType>(old(self).gate_data().dim_row * old(self).gate_data().dim_col) as usize,
                bytes_of::<S::SemiShrType>(old(self).gate_data().dim_row * old(self).gate_data().dim_col) as usize,
                bytes_of::<S::ClearType>(old(self).gate_data().dim_row * old(self).gate_data().dim_col) as usize,
            ]),
        ensures
            final(self).gate_data() == (GateData::<S> {
                lambda_shr: final(self).gate_data().lambda_shr,
                lambda_shr_mac: final(self).gate_data().lambda_shr_mac,
                read_offline: true,
                ..old(self).gate_data()
            }),
            final(self).gate_data().lambda_shr@ == decoded::<S::SemiShrType>(pieces@[0]@),
            final(self).gate_data().lambda_shr_mac@ == decoded::<S::SemiShrType>(pieces@[1]@),
            final(self).bin_seq() == decoded::<S::ClearType>(pieces@[2]@),
            final(self).gate_data().lambda_shr@.len() == old(self).gate_data().dim_row * old(self).gate_data().dim_col,
            final(self).bin_seq().len() == old(self).gate_data().dim_row * old(self).gate_data().dim_col,
            final(self).triple() == old(self).triple(),
            final(self).stage_spec() == old(self).stage_spec(),
            old(self).online_ok() ==> final(self).online_ok(),
            old(self).reply_len() == final(self).reply_len(),
    {
        let size = self.data.dim_row * self.data.dim_col;
        proof {
            lemma_bytes_of_fits::<S::SemiShrType>(size as int);
            lemma_bytes_of_fits::<S::ClearType>(size as int);
        }
        self.data.lambda_shr = read_piece::<S::SemiShrType>(&pieces[0], size);
        self.data.lambda_shr_mac = read_piece::<S::SemiShrType>(&pieces[1], size);
        self.lambda_x_bin_shr = read_piece::<S::ClearType>(&pieces[2], size);
        self.data.read_offline = true;
    }

    /// The round message for the current shares, followed by its MAC part
    /// (zeros); the message is kept to combine the round.
    fn round_message(&mut self) -> (r: Vec<u8>)
        requires
            old(self).k > 1,
            old(self).k <= 128,
            shaped(rows(old(self).p@), rows(old(self).g@), old(self).k as int),
            old(self).p@.len() * 8192 <= usize::MAX,
        ensures
            *final(self) == (GtzGate::<S> { sendmsg: final(self).sendmsg, ..*old(self) }),
            packs(final(self).sendmsg@, round_bits(rows(old(self).p@), rows(old(self).g@), (old(self).k / 2) as int, old(self).a, old(self).b)),
            final(self).sendmsg@.len() == round_msg_len(old(self).p@.len() as int, old(self).k as int),
            r@.len() == round_msg_len(old(self).p@.len() as int, old(self).k as int) + round_mac_len(old(self).p@.len() as int, old(self).k as int, S::ClearType::width() as int),
            r@.subrange(0, round_msg_len(old(self).p@.len() as int, old(self).k as int)) == final(self).sendmsg@,
    {
        let n = self.p.len();
        let u_len = self.k / 2;
        assert(n * u_len <= n * 64) by (nonlinear_arith)
            requires
                u_len <= 64,
        ;
        let msg = carry_round_message(&self.p, &self.g, self.k, self.a, self.b);
        proof {
            S::ClearType::lemma_value_bounds(S::ClearType::spec_from_bytes(Seq::<u8>::empty()));
        }
        let cb = S::ClearType::byte_size();
        assert(n * u_len * 4 * cb <= n * 64 * 4 * 16) by (nonlinear_arith)
            requires
                n * u_len <= n * 64,
                cb <= 16,
        ;
        let mac_len = n * u_len * 4 * cb;
        assert(msg@.len() <= n * 64 + 1);
        assert(msg@.len() + mac_len <= usize::MAX) by (nonlinear_arith)
            requires
                msg@.len() <= n * 64 + 1,
                mac_len <= n * 64 * 4 * 16,
                n * 8192 <= usize::MAX,
                usize::MAX >= 0xffff_ffff,
        ;
        let mut out: Vec<u8> = Vec::with_capacity(msg.len() + mac_len);
        for i in 0..msg.len()
            invariant
                out@ == msg@.subrange(0, i as int),
        {
            out.push(msg[i]);
        }
        for i in 0..mac_len
            invariant
                out@.len() == msg@.len() + i,
                out@.subrange(0, msg@.len() as int) == msg@,
        {
            out.push(0u8);
            assert(out@.subrange(0, msg@.len() as int) =~= msg@);
        }
        self.sendmsg = msg;
        out
    }

    /// The state after online_start on Delta_x and the boolean shares `bin`
    /// of lambda_x: the start shares of the propagate and generate bits of
    /// Delta_x (its low K bits) + (not lambda_x) + 1, on all the positions.
    pub open spec fn started(&self, delta_x: Seq<S::SemiShrType>, bin: Seq<S::ClearType>, first: bool) -> bool {
        let w = S::ClearType::width() as int;
        &&& self.positions() == S::ClearType::width()
        &&& self.p_rows().len() == delta_x.len()
        &&& self.g_rows().len() == delta_x.len()
        &&& forall|i: int| 0 <= i < delta_x.len() ==> #[trigger] self.p_rows()[i] == start_p(
            bits_of(delta_x[i].value() % (pow2(S::K_BITS as nat) as int), w),
            operand_bits(bin[i].value(), w, first),
            first,
        )
        &&& forall|i: int| 0 <= i < delta_x.len() ==> #[trigger] self.g_rows()[i] == start_g(
            bits_of(delta_x[i].value() % (pow2(S::K_BITS as nat) as int), w),
            operand_bits(bin[i].value(), w, first),
            first,
            true,
        )
    }

    /// `next` is the state after online_round on this state and the other
    /// party's reply `received`: every pair of positions is combined with
    /// the opened masked operands of the two ANDs.
    pub open spec fn round_step(&self, next: &Self, received: Seq<u8>, first: bool) -> bool {
        let n = self.p_rows().len();
        let k = self.positions() as int;
        let rcv = received.subrange(0, round_msg_len(n as int, k));
        &&& next.positions() == reduced_len(k)
        &&& next.triple() == self.triple()
        &&& next.p_rows().len() == n
        &&& next.g_rows().len() == n
        &&& forall|i: int| 0 <= i < n ==> #[trigger] next.p_rows()[i].len() == self.p_rows()[i].len()
        &&& forall|i: int| 0 <= i < n ==> #[trigger] next.g_rows()[i].len() == self.p_rows()[i].len()
        &&& forall|i: int, j: int| 0 <= i < n && 0 <= j < self.p_rows()[i].len() ==> #[trigger] next.p_rows()[i][j] == round_p_entry(
            self.p_rows(), k, self.sent(), rcv, first, self.triple().2, i, j,
        )
        &&& forall|i: int, j: int| 0 <= i < n && 0 <= j < self.p_rows()[i].len() ==> #[trigger] next.g_rows()[i][j] == round_g_entry(
            self.p_rows(), self.g_rows(), k, self.sent(), rcv, first, self.triple().2, i, j,
        )
    }

    /// One position is left, and the party's shares of the comparison bits
    /// are its shares of the generate bit of each row.
    pub open spec fn bits_ready(&self) -> bool {
        &&& self.positions() == 1
        &&& self.result_bits().len() == self.g_rows().len()
        &&& forall|i: int| #![trigger self.result_bits()[i]] 0 <= i < self.g_rows().len() ==> self.g_rows()[i].len() >= 1 && self.result_bits()[i] == self.g_rows()[i][0]
    }

    /// `next` is the state after online_bits on this state and the other
    /// party's packed result bits `received`: its share of Delta_z is the
    /// share of lambda_z, plus 1 for party 0 where the two result bits differ.
    pub open spec fn bits_step(&self, next: &Self, received: Seq<u8>, first: bool) -> bool {
        &&& next.gate_data().delta_clear@.len() == self.result_bits().len()
        &&& forall|j: int| 0 <= j < self.result_bits().len() ==> #[trigger] next.gate_data().delta_clear@[j].value() == (self.gate_data().lambda_shr@[j].value() + (if first && self.result_bits()[j] != msg_bit(received, j) { 1int } else { 0int })) % modulus::<S::SemiShrType>()
    }

    /// Starts the online phase: the operand bits of Delta_x (its low K bits)
    /// and of the shares of lambda_x (negated by party 0), the start shares
    /// of the propagate and generate bits with a carry in of 1, and the first
    /// round message.
    pub fn online_start(&mut self, delta_x: &[S::SemiShrType], my_id: usize) -> (r: Vec<u8>)
        requires
            gtz_size_ok(old(self).gate_data().dim_row as int, old(self).gate_data().dim_col as int),
            old(self).bin_seq().len() == old(self).gate_data().dim_row * old(self).gate_data().dim_col,
            old(self).gate_data().lambda_shr@.len() == old(self).gate_data().dim_row * old(self).gate_data().dim_col,
            delta_x@.len() == old(self).gate_data().dim_row * old(self).gate_data().dim_col,
            !old(self).gate_data().evaluated_online,
        ensures
            final(self).online_ok(),
            r@.len() == final(self).reply_len(),
            final(self).gate_data() == old(self).gate_data(),
            final(self).bin_seq() == old(self).bin_seq(),
            final(self).triple() == old(self).triple(),
            final(self).stage_spec() == GtzStage::Round,
            final(self).started(delta_x@, old(self).bin_seq(), my_id == 0),
            packs(final(self).sent(), round_bits(final(self).p_rows(), final(self).g_rows(), (final(self).positions() / 2) as int, old(self).triple().0, old(self).triple().1)),
            final(self).sent().len() == round_msg_len(delta_x@.len() as int, final(self).positions() as int),
            r@.len() == round_msg_len(delta_x@.len() as int, final(self).positions() as int) + round_mac_len(delta_x@.len() as int, final(self).positions() as int, S::ClearType::width() as int),
            r@.subrange(0, round_msg_len(delta_x@.len() as int, final(self).positions() as int)) == final(self).sent(),
    {
        proof {
            S::lemma_widths();
            S::ClearType::lemma_value_bounds(S::ClearType::spec_from_bytes(Seq::<u8>::empty()));
        }
        let n = delta_x.len();
        let mut dx: Vec<S::ClearType> = Vec::with_capacity(n);
        for i in 0..n
            invariant
                n == delta_x@.len(),
                dx@.len() == i,
                S::ClearType::width() == S::K_BITS,
                forall|j: int| 0 <= j < i ==> #[trigger] dx@[j].value() == delta_x@[j].value() % (pow2(S::K_BITS as nat) as int),
        {
            dx.push(widen::<S::SemiShrType, S::ClearType>(delta_x[i]));
        }
        let num_bits = S::ClearType::bit_count();
        let (a_, b_) = bit_lt_operands(dx.as_slice(), self.lambda_x_bin_shr.as_slice(), my_id);
        proof {
            assert forall|i: int| 0 <= i < b_@.len() implies #[trigger] a_@[i]@.len() >= num_bits by {
                assert(rows(a_@)[i] == a_@[i]@);
            }
            assert forall|i: int| 0 <= i < b_@.len() implies #[trigger] b_@[i]@.len() >= num_bits by {
                assert(rows(b_@)[i] == b_@[i]@);
            }
        }
        let (p, g) = carry_out_start(&a_, &b_, true, my_id, num_bits);
        self.p = p;
        self.g = g;
        self.k = num_bits;
        self.stage = GtzStage::Round;
        proof {
            let w = S::ClearType::width() as int;
            assert forall|i: int| 0 <= i < n implies #[trigger] rows(self.g@)[i] == start_g(
                bits_of(delta_x@[i].value() % (pow2(S::K_BITS as nat) as int), w),
                operand_bits(self.lambda_x_bin_shr@[i].value(), w, my_id == 0),
                my_id == 0,
                true,
            ) && rows(self.p@)[i] == start_p(
                bits_of(delta_x@[i].value() % (pow2(S::K_BITS as nat) as int), w),
                operand_bits(self.lambda_x_bin_shr@[i].value(), w, my_id == 0),
                my_id == 0,
            ) by {
                assert(rows(a_@)[i] == a_@[i]@);
                assert(rows(b_@)[i] == b_@[i]@);
                let av = bits_of(delta_x@[i].value() % (pow2(S::K_BITS as nat) as int), w);
                let bv = operand_bits(self.lambda_x_bin_shr@[i].value(), w, my_id == 0);
                assert(a_@[i]@ == av);
                assert(b_@[i]@ =~= bv);
                assert(rows(self.p@)[i] =~= start_p(av, bv, my_id == 0));
                assert(rows(self.g@)[i] =~= start_g(av, bv, my_id == 0, true));
            }
            assert forall|i: int| 0 <= i < n implies #[trigger] rows(self.p@)[i] == start_p(
                bits_of(delta_x@[i].value() % (pow2(S::K_BITS as nat) as int), w),
                operand_bits(self.lambda_x_bin_shr@[i].value(), w, my_id == 0),
                my_id == 0,
            ) by {
                assert(rows(self.g@)[i] == rows(self.g@)[i]);
            }
            assert forall|i: int| 0 <= i < rows(self.p@).len() implies #[trigger] rows(self.p@)[i].len() >= num_bits && rows(self.g@)[i].len() >= num_bits by {
                assert(rows(self.p@)[i] == self.p@[i]@);
                assert(rows(self.g@)[i] == self.g@[i]@);
            }
        }
        self.round_message()
    }

    /// The state of the online phase is consistent with its stage.
    pub closed spec fn online_ok(&self) -> bool {
        let n = self.data.dim_row * self.data.dim_col;
        &&& gtz_size_ok(self.data.dim_row as int, self.data.dim_col as int)
        &&& self.data.evaluated_online <==> self.stage == GtzStage::Finished
        &&& self.stage == GtzStage::Round ==> {
            &&& 1 < self.k <= 128
            &&& self.p@.len() == n
            &&& shaped(rows(self.p@), rows(self.g@), self.k as int)
            &&& self.sendmsg@.len() == round_msg_len(n as int, self.k as int)
            &&& packs(self.sendmsg@, round_bits(rows(self.p@), rows(self.g@), (self.k / 2) as int, self.a, self.b))
            &&& self.data.lambda_shr@.len() == n
        }
        &&& self.stage == GtzStage::Bits ==> {
            &&& self.ret@.len() == n
            &&& self.data.lambda_shr@.len() == n
        }
        &&& self.stage == GtzStage::Opening ==> self.data.delta_clear@.len() == n
    }

    /// The number of bytes of the other party's reply in the current stage:
    /// as many as this party sent.
    pub closed spec fn reply_len(&self) -> int {
        let n = (self.data.dim_row * self.data.dim_col) as int;
        match self.stage {
            GtzStage::Round => round_msg_len(n, self.k as int) + round_mac_len(n, self.k as int, S::ClearType::width() as int),
            GtzStage::Bits => (n + 7) / 8,
            GtzStage::Opening => bytes_of::<S::SemiShrType>(n),
            _ => 0,
        }
    }

    /// Combines a round with the other party's message; then either the next
    /// round message, or, once one position is left, the party's shares of
    /// the comparison bits (the generate bit of each row), packed.
    pub fn online_round(&mut self, received: &Vec<u8>, my_id: usize) -> (r: Vec<u8>)
        requires
            old(self).stage_spec() == GtzStage::Round,
            old(self).online_ok(),
            received@.len() == old(self).reply_len(),
        ensures
            final(self).gate_data() == old(self).gate_data(),
            final(self).bin_seq() == old(self).bin_seq(),
            final(self).triple() == old(self).triple(),
            final(self).online_ok(),
            r@.len() == final(self).reply_len(),
            old(self).round_step(&*final(self), received@, my_id == 0),
            final(self).positions() > 1 ==> {
                &&& final(self).stage_spec() == GtzStage::Round
                &&& packs(final(self).sent(), round_bits(final(self).p_rows(), final(self).g_rows(), (final(self).positions() / 2) as int, old(self).triple().0, old(self).triple().1))
                &&& r@.subrange(0, round_msg_len(old(self).p_rows().len() as int, final(self).positions() as int)) == final(self).sent()
            },
            final(self).positions() <= 1 ==> {
                &&& final(self).stage_spec() == GtzStage::Bits
                &&& final(self).bits_ready()
                &&& packs(r@, final(self).result_bits())
            },
    {
        let n = self.p.len();
        assert(n * 8192 <= usize::MAX);
        assert(n * (self.k / 2) <= n * 64) by (nonlinear_arith)
            requires
                self.k / 2 <= 64,
        ;
        let msg_len = (4 * (n * (self.k / 2)) + 7) / 8;
        proof {
            S::ClearType::lemma_value_bounds(S::ClearType::spec_from_bytes(Seq::<u8>::empty()));
        }
        let rcvmsg = slice_subrange(received.as_slice(), 0, msg_len);
        let ghost old_p = self.p@;
        let ghost old_g = self.g@;
        let (u_p, u_g, k2) = carry_round_combine(&self.p, &self.g, self.k, self.sendmsg.as_slice(), rcvmsg, my_id, self.c);
        self.p = u_p;
        self.g = u_g;
        self.k = k2;
        proof {
            assert forall|i: int| 0 <= i < rows(self.p@).len() implies #[trigger] rows(self.p@)[i].len() >= k2 && rows(self.g@)[i].len() >= k2 by {
                assert(rows(old_p)[i].len() >= reduced_len(k2 as int));
                assert(rows(self.p@)[i] == self.p@[i]@);
                assert(rows(self.g@)[i] == self.g@[i]@);
                assert(rows(old_p)[i] == old_p[i]@);
            }
            assert forall|i: int| 0 <= i < old_p.len() implies #[trigger] rows(self.p@)[i].len() == rows(old_p)[i].len() && rows(self.g@)[i].len() == rows(old_p)[i].len() by {
                assert(rows(self.p@)[i] == self.p@[i]@);
                assert(rows(self.g@)[i] == self.g@[i]@);
                assert(rows(old_p)[i] == old_p[i]@);
            }
        }
        if k2 > 1 {
            self.round_message()
        } else {
            proof {
                assert forall|i: int| 0 <= i < self.g@.len() implies #[trigger] self.g@[i]@.len() >= 1 by {
                    assert(rows(self.g@)[i] == self.g@[i]@);
                    assert(rows(old_p)[i] == old_p[i]@);
                }
            }
            self.ret = carry_result(&self.g);
            self.stage = GtzStage::Bits;
            proof {
                assert forall|i: int| 0 <= i < n implies #[trigger] self.ret@[i] == rows(self.g@)[i][0] by {
                    assert(rows(self.g@)[i] == self.g@[i]@);
                }
            }
            pack_bits(self.ret.as_slice())
        }
    }

    /// With the other party's shares of the comparison bits: party 0 takes
    /// z = 1 where the two shares differ, party 1 takes z = 0; the share of
    /// Delta_z = lambda_z + z, encoded to be sent.
    pub fn online_bits(&mut self, received: &Vec<u8>, my_id: usize) -> (r: Vec<u8>)
        requires
            old(self).stage_spec() == GtzStage::Bits,
            old(self).online_ok(),
            received@.len() == old(self).reply_len(),
        ensures
            final(self).gate_data() == (GateData::<S> { delta_clear: final(self).gate_data().delta_clear, ..old(self).gate_data() }),
            final(self).bin_seq() == old(self).bin_seq(),
            final(self).triple() == old(self).triple(),
            final(self).stage_spec() == GtzStage::Opening,
            final(self).online_ok(),
            r@.len() == final(self).reply_len(),
            old(self).bits_step(&*final(self), received@, my_id == 0),
            r@ == seq_to_bytes(final(self).gate_data().delta_clear@),
    {
        let n = self.ret.len();
        let rcv = unpack_bits(received.as_slice(), n);
        let mut z_shr: Vec<S::SemiShrType> = Vec::with_capacity(n);
        for j in 0..n
            invariant
                n == self.ret@.len(),
                rcv@.len() == n,
                z_shr@.len() == j,
                forall|t: int| 0 <= t < j ==> #[trigger] z_shr@[t].value() == (if my_id == 0 && self.ret@[t] != rcv@[t] { 1int } else { 0int }),
        {
            if my_id == 0 && self.ret[j] != rcv[j] {
                z_shr.push(S::SemiShrType::one());
            } else {
                z_shr.push(S::SemiShrType::zero());
            }
        }
        self.data.delta_clear = matrix_add(self.data.lambda_shr.as_slice(), z_shr.as_slice());
        self.stage = GtzStage::Opening;
        proof {
            let sa = crate::ring::seq_add(values(self.data.lambda_shr@), values(z_shr@), modulus::<S::SemiShrType>());
            assert forall|j: int| 0 <= j < n implies #[trigger] self.data.delta_clear@[j].value() == (self.data.lambda_shr@[j].value() + (if my_id == 0 && self.ret@[j] != msg_bit(received@, j) { 1int } else { 0int })) % modulus::<S::SemiShrType>() by {
                assert(values(self.data.delta_clear@)[j] == sa[j]);
                assert(rcv@[j] == msg_bit(received@, j));
            }
            S::SemiShrType::lemma_value_bounds(S::SemiShrType::spec_from_bytes(Seq::<u8>::empty()));
            crate::share::lemma_decoded_roundtrip(self.data.delta_clear@);
            assert(values(self.data.delta_clear@).len() == self.data.delta_clear@.len());
        }
        slice_as_bytes(self.data.delta_clear.as_slice())
    }

    /// With the other party's share of Delta_z: Delta_z is the sum of both.
    pub fn online_finish(&mut self, received: &Vec<u8>)
        requires
            old(self).stage_spec() == GtzStage::Opening,
            old(self).online_ok(),
            received@.len() == old(self).reply_len(),
        ensures
            final(self).gate_data() == (GateData::<S> {
                delta_clear: final(self).gate_data().delta_clear,
                evaluated_online: true,
                ..old(self).gate_data()
            }),
            final(self).bin_seq() == old(self).bin_seq(),
            final(self).triple() == old(self).triple(),
            final(self).stage_spec() == GtzStage::Finished,
            final(self).online_ok(),
            values(final(self).gate_data().delta_clear@) == seq_add(values(old(self).gate_data().delta_clear@), values(decoded::<S::SemiShrType>(received@)), modulus::<S::SemiShrType>()),
    {
        let size = self.data.dim_row * self.data.dim_col;
        proof {
            lemma_bytes_of_fits::<S::SemiShrType>(size as int);
        }
        let other = read_piece::<S::SemiShrType>(received, size);
        matrix_add_assign(&mut self.data.delta_clear, other.as_slice());
        proof {
            assert(values(self.data.delta_clear@).subrange(0, size as int) =~= values(self.data.delta_clear@));
        }
        self.data.evaluated_online = true;
        self.stage = GtzStage::Finished;
    }

    /// The next step of the online phase after a reply: a round, the result
    /// bits, or the opening. Returns what to send next, and nothing once the
    /// gate is evaluated.
    pub fn online_continue(&mut self, received: &Vec<u8>, my_id: usize) -> (r: Option<Vec<u8>>)
        requires
            old(self).online_ok(),
            old(self).stage_spec() == GtzStage::Round || old(self).stage_spec() == GtzStage::Bits || old(self).stage_spec() == GtzStage::Opening,
            received@.len() == old(self).reply_len(),
        ensures
            final(self).online_ok(),
            final(self).gate_data().dim_row == old(self).gate_data().dim_row,
            final(self).gate_data().dim_col == old(self).gate_data().dim_col,
            final(self).gate_data().input_x == old(self).gate_data().input_x,
            final(self).gate_data().input_y == old(self).gate_data().input_y,
            final(self).gate_data().read_offline == old(self).gate_data().read_offline,
            r is Some <==> final(self).stage_spec() != GtzStage::Finished,
            final(self).gate_data().evaluated_online <==> final(self).stage_spec() == GtzStage::Finished,
            old(self).gate_data().evaluated_online ==> final(self).gate_data().evaluated_online,
            r is Some ==> r->0@.len() == final(self).reply_len(),
            final(self).stage_spec() == GtzStage::Round || final(self).stage_spec() == GtzStage::Bits || final(self).stage_spec() == GtzStage::Opening || final(self).stage_spec() == GtzStage::Finished,
            final(self).bin_seq() == old(self).bin_seq(),
            final(self).triple() == old(self).triple(),
            old(self).stage_spec() == GtzStage::Round ==> old(self).round_step(&*final(self), received@, my_id == 0),
            old(self).stage_spec() == GtzStage::Round && final(self).stage_spec() == GtzStage::Bits ==> final(self).bits_ready() && packs(r->0@, final(self).result_bits()),
            old(self).stage_spec() == GtzStage::Round && final(self).stage_spec() == GtzStage::Round ==> r->0@.len() >= final(self).sent().len() && r->0@.subrange(0, final(self).sent().len() as int) == final(self).sent(),
            old(self).stage_spec() == GtzStage::Bits ==> old(self).bits_step(&*final(self), received@, my_id == 0) && final(self).gate_data().lambda_shr == old(self).gate_data().lambda_shr,
            old(self).stage_spec() == GtzStage::Opening ==> values(final(self).gate_data().delta_clear@) == seq_add(values(old(self).gate_data().delta_clear@), values(decoded::<S::SemiShrType>(received@)), modulus::<S::SemiShrType>()),
    {
        match self.stage {
            GtzStage::Round => Some(self.online_round(received, my_id)),
            GtzStage::Bits => Some(self.online_bits(received, my_id)),
            _ => {
                self.online_finish(received);
                None
            },
        }
    }
}

/// The two parties' states agree on the number of positions left, and for
/// each row the carry out of the reconstructed propagate and generate bits
/// (the exclusive or of the two parties' shares) is c.
pub open spec fn carry_kept<S: Spdz2kShare>(s0: &GtzGate<S>, s1: &GtzGate<S>, c: Seq<bool>) -> bool {
    &&& s0.positions() == s1.positions()
    &&& s0.p_rows().len() == c.len()
    &&& s1.p_rows().len() == c.len()
    &&& s0.g_rows().len() == c.len()
    &&& s1.g_rows().len() == c.len()
    &&& forall|i: int| 0 <= i < c.len() ==> fold_g(
        xor_row(s0.p_rows()[i], s1.p_rows()[i]),
        xor_row(s0.g_rows()[i], s1.g_rows()[i]),
        s0.positions() as int,
    ) == #[trigger] c[i]
}

/// The comparison bits [Delta_x >= lambda_x] of each entry, with Delta_x
/// taken on its low K bits and lambda_x = bin0 ^ bin1.
pub open spec fn comparison_bits<S: Spdz2kShare>(delta_x: Seq<S::SemiShrType>, bin0: Seq<S::ClearType>, bin1: Seq<S::ClearType>) -> Seq<bool> {
    Seq::new(
        delta_x.len(),
        |i: int| delta_x[i].value() % (pow2(S::K_BITS as nat) as int) >= S::ClearType::spec_xor(bin0[i], bin1[i]).value(),
    )
}

/// Law (start of the comparison): when both parties start on the same
/// Delta_x, party 0 with boolean shares bin0 of lambda_x and party 1 with
/// bin1, the carry out of each row of their reconstructed bits is the
/// comparison bit [Delta_x >= bin0 ^ bin1].
pub proof fn lemma_gtz_start<S: Spdz2kShare>(s0: &GtzGate<S>, s1: &GtzGate<S>, delta_x: Seq<S::SemiShrType>, bin0: Seq<S::ClearType>, bin1: Seq<S::ClearType>)
    requires
        s0.started(delta_x, bin0, true),
        s1.started(delta_x, bin1, false),
        bin0.len() >= delta_x.len(),
        bin1.len() >= delta_x.len(),
    ensures
        carry_kept(s0, s1, comparison_bits::<S>(delta_x, bin0, bin1)),
{
    S::lemma_widths();
    let w = S::ClearType::width() as int;
    let c = comparison_bits::<S>(delta_x, bin0, bin1);
    S::ClearType::lemma_value_bounds(S::ClearType::spec_from_bytes(Seq::<u8>::empty()));
    assert forall|i: int| 0 <= i < c.len() implies fold_g(
        xor_row(s0.p_rows()[i], s1.p_rows()[i]),
        xor_row(s0.g_rows()[i], s1.g_rows()[i]),
        s0.positions() as int,
    ) == #[trigger] c[i] by {
        let d = delta_x[i].value() % (pow2(S::K_BITS as nat) as int);
        let a = bits_of(d, w);
        let b0 = bits_of(bin0[i].value(), w);
        let b1 = bits_of(bin1[i].value(), w);
        let lam = S::ClearType::spec_xor(bin0[i], bin1[i]);
        let p0 = s0.p_rows()[i];
        let g0 = s0.g_rows()[i];
        let p1 = s1.p_rows()[i];
        let g1 = s1.g_rows()[i];
        assert(p0 == start_p(a, not_row(b0), true));
        assert(g0 == start_g(a, not_row(b0), true, true));
        assert(p1 == start_p(a, b1, false));
        assert(g1 == start_g(a, b1, false, true));
        lemma_start_reconstructs(a, b0, b1, true, p0, g0, p1, g1, w);
        lemma_bits_of_xor::<S::ClearType>(bin0[i], bin1[i]);
        S::ClearType::lemma_value_bounds(lam);
        assert(0 <= d < pow2(w as nat)) by {
            vstd::arithmetic::power2::lemma_pow2_pos(S::K_BITS as nat);
        }
        lemma_carry_is_comparison(d, lam.value(), w);
    }
}

/// Law (a round of the comparison): when each party combines a round with
/// the other party's round message, and the binary triple is valid
/// ((a0 ^ a1) & (b0 ^ b1) == c0 ^ c1), the carry out of each row of the
/// reconstructed bits is kept.
pub proof fn lemma_gtz_round<S: Spdz2kShare>(
    b0: &GtzGate<S>,
    b1: &GtzGate<S>,
    a0: &GtzGate<S>,
    a1: &GtzGate<S>,
    r0: Seq<u8>,
    r1: Seq<u8>,
    c: Seq<bool>,
)
    requires
        b0.online_ok(),
        b1.online_ok(),
        b0.stage_spec() == GtzStage::Round,
        b1.stage_spec() == GtzStage::Round,
        carry_kept(b0, b1, c),
        r0.len() >= b1.sent().len(),
        r1.len() >= b0.sent().len(),
        r0.subrange(0, b1.sent().len() as int) == b1.sent(),
        r1.subrange(0, b0.sent().len() as int) == b0.sent(),
        ((b0.triple().0 != b1.triple().0) && (b0.triple().1 != b1.triple().1)) == (b0.triple().2 != b1.triple().2),
        b0.round_step(a0, r0, true),
        b1.round_step(a1, r1, false),
    ensures
        carry_kept(a0, a1, c),
{
    let k = b0.positions() as int;
    let n = c.len() as int;
    let msg_len = round_msg_len(n, k);
    assert(b0.sent().len() == msg_len);
    assert(b1.sent().len() == msg_len);
    assert forall|i: int| 0 <= i < c.len() implies fold_g(
        xor_row(a0.p_rows()[i], a1.p_rows()[i]),
        xor_row(a0.g_rows()[i], a1.g_rows()[i]),
        a0.positions() as int,
    ) == #[trigger] c[i] by {
        let p0 = b0.p_rows();
        let g0 = b0.g_rows();
        let p1 = b1.p_rows();
        let g1 = b1.g_rows();
        assert(p0[i].len() >= k && p1[i].len() >= k);
        assert(reduced_len(k) <= k);
        lemma_round_preserves_carry(
            p0, g0, p1, g1, k,
            b0.triple().0, b0.triple().1, b0.triple().2,
            b1.triple().0, b1.triple().1, b1.triple().2,
            b0.sent(), b1.sent(),
            a0.p_rows(), a0.g_rows(), a1.p_rows(), a1.g_rows(),
            i,
        );
    }
}

/// Law (end of the comparison): once one position is left, the exclusive or
/// of the two parties' result bits is the carry out that their states keep.
pub proof fn lemma_gtz_result<S: Spdz2kShare>(s0: &GtzGate<S>, s1: &GtzGate<S>, c: Seq<bool>)
    requires
        carry_kept(s0, s1, c),
        s0.bits_ready(),
        s1.bits_ready(),
    ensures
        forall|i: int| 0 <= i < c.len() ==> (#[trigger] s0.result_bits()[i] != s1.result_bits()[i]) == c[i],
{
    assert forall|i: int| 0 <= i < c.len() implies (#[trigger] s0.result_bits()[i] != s1.result_bits()[i]) == c[i] by {
        let pp = xor_row(s0.p_rows()[i], s1.p_rows()[i]);
        let gg = xor_row(s0.g_rows()[i], s1.g_rows()[i]);
        assert(fold_g(pp, gg, 1) == c[i]);
        assert(fold_g(pp, gg, 0) == false);
        assert(s0.positions() == 1);
        assert(s0.result_bits().len() == s0.g_rows().len());
        assert(0 <= i < s0.g_rows().len());
        assert(s0.result_bits()[i] == s0.g_rows()[i][0]);
        assert(s0.g_rows()[i].len() >= 1);
        assert(s1.result_bits()[i] == s1.g_rows()[i][0] && s1.g_rows()[i].len() >= 1);
    }
}

/// Law (opening of the comparison): when each party takes the other's
/// packed result bits, the two shares of Delta_z add up, entry by entry and
/// modulo the ring size, to lambda_z (the sum of the two shares of it) plus
/// the comparison bit that the two states kept.
pub proof fn lemma_gtz_open<S: Spdz2kShare>(
    s0: &GtzGate<S>,
    s1: &GtzGate<S>,
    n0: &GtzGate<S>,
    n1: &GtzGate<S>,
    r0: Seq<u8>,
    r1: Seq<u8>,
    c: Seq<bool>,
)
    requires
        carry_kept(s0, s1, c),
        s0.bits_ready(),
        s1.bits_ready(),
        packs(r0, s1.result_bits()),
        packs(r1, s0.result_bits()),
        s0.bits_step(n0, r0, true),
        s1.bits_step(n1, r1, false),
    ensures
        forall|j: int| 0 <= j < c.len() ==> crate::ring::cong(
            #[trigger] n0.gate_data().delta_clear@[j].value() + n1.gate_data().delta_clear@[j].value(),
            s0.gate_data().lambda_shr@[j].value() + s1.gate_data().lambda_shr@[j].value() + (if c[j] { 1int } else { 0int }),
            modulus::<S::SemiShrType>(),
        ),
{
    lemma_gtz_result(s0, s1, c);
    let m = modulus::<S::SemiShrType>();
    S::SemiShrType::lemma_value_bounds(S::SemiShrType::spec_from_bytes(Seq::<u8>::empty()));
    vstd::arithmetic::power2::lemma_pow2_pos(S::SemiShrType::width());
    assert forall|j: int| 0 <= j < c.len() implies crate::ring::cong(
        #[trigger] n0.gate_data().delta_clear@[j].value() + n1.gate_data().delta_clear@[j].value(),
        s0.gate_data().lambda_shr@[j].value() + s1.gate_data().lambda_shr@[j].value() + (if c[j] { 1int } else { 0int }),
        m,
    ) by {
        assert(s0.result_bits()[j] != s1.result_bits()[j] == c[j]);
        assert(8 * r0.len() >= s1.result_bits().len());
        assert(msg_bit(r0, j) == s1.result_bits()[j]);
        let l0 = s0.gate_data().lambda_shr@[j].value();
        let l1 = s1.gate_data().lambda_shr@[j].value();
        let z: int = if c[j] { 1int } else { 0int };
        assert(n0.gate_data().delta_clear@[j].value() == (l0 + z) % m);
        assert(n1.gate_data().delta_clear@[j].value() == (l1 + 0int) % m);
        crate::ring::lemma_cong_mod(l0 + z, m);
        crate::ring::lemma_cong_mod(l1, m);
        crate::ring::lemma_cong((l0 + z) % m, l0 + z, l1 % m, l1, m);
    }
}

/// Party i's preprocessing data of a comparison gate, piece by piece: its
/// shares of lambda_z and of its MAC, then its boolean shares.
pub open spec fn gtz_pieces<S: Spdz2kShare, const N: usize>(fd: FakeGateData<S, N>, bool_shares: Seq<Vec<S::ClearType>>, i: int) -> Seq<Seq<u8>> {
    seq![seq_to_bytes(fd.lambda_shr@[i]@), seq_to_bytes(fd.lambda_shr_mac@[i]@), seq_to_bytes(bool_shares[i]@)]
}

/// Law (the preprocessing file of a comparison gate): the bytes the dealer
/// writes for party i are, in order, pieces of the lengths a comparison gate reads,
/// and each piece decodes to what was dealt: the party's shares of lambda_z
/// and of its MAC, and its boolean shares.
pub proof fn lemma_gtz_file_agrees<S: Spdz2kShare, const N: usize>(
    rows: int,
    cols: int,
    fd: FakeGateData<S, N>,
    bool_shares: Seq<Vec<S::ClearType>>,
    key: int,
    i: int,
)
    requires
        0 <= i < N,
        0 <= rows && 0 <= cols,
        size_ok(rows, cols),
        fd.lambda_clear@.len() == rows * cols,
        shares_hide::<S>(fd.lambda_shr@, fd.lambda_shr_mac@, values(fd.lambda_clear@), key, N as int),
        bool_shares.len() == N,
        bool_shares[i]@.len() == rows * cols,
    ensures
        gtz_pieces(fd, bool_shares, i).flatten_alt() == seq_to_bytes(fd.lambda_shr@[i]@) + seq_to_bytes(fd.lambda_shr_mac@[i]@) + seq_to_bytes(bool_shares[i]@),
        gtz_pieces(fd, bool_shares, i).len() == 3,
        gtz_pieces(fd, bool_shares, i)[0].len() == bytes_of::<S::SemiShrType>(rows * cols) as usize,
        gtz_pieces(fd, bool_shares, i)[1].len() == bytes_of::<S::SemiShrType>(rows * cols) as usize,
        gtz_pieces(fd, bool_shares, i)[2].len() == bytes_of::<S::ClearType>(rows * cols) as usize,
        decoded::<S::SemiShrType>(gtz_pieces(fd, bool_shares, i)[0]) == fd.lambda_shr@[i]@,
        decoded::<S::SemiShrType>(gtz_pieces(fd, bool_shares, i)[1]) == fd.lambda_shr_mac@[i]@,
        decoded::<S::ClearType>(gtz_pieces(fd, bool_shares, i)[2]) == bool_shares[i]@,
{
    let p = gtz_pieces(fd, bool_shares, i);
    crate::share::lemma_decoded_roundtrip(fd.lambda_shr@[i]@);
    crate::share::lemma_decoded_roundtrip(fd.lambda_shr_mac@[i]@);
    crate::share::lemma_decoded_roundtrip(bool_shares[i]@);
    assert(fd.lambda_shr@[i]@.len() == rows * cols && fd.lambda_shr_mac@[i]@.len() == rows * cols);
    assert(0 <= rows * cols) by (nonlinear_arith)
        requires
            0 <= rows,
            0 <= cols,
    ;
    lemma_bytes_of_fits::<S::SemiShrType>(rows * cols);
    lemma_bytes_of_fits::<S::ClearType>(rows * cols);
    reveal_with_fuel(Seq::<Seq<u8>>::flatten_alt, 4);
    assert(p.drop_last().drop_last().drop_last().len() == 0);
    assert(p.flatten_alt() =~= seq_to_bytes(fd.lambda_shr@[i]@) + seq_to_bytes(fd.lambda_shr_mac@[i]@) + seq_to_bytes(bool_shares[i]@));
}

impl<S: Spdz2kShare> Gate<S> for GtzGate<S> {
    closed spec fn gate_data(&self) -> GateData<S> {
        self.data
    }

    open spec fn gate_name(&self) -> Seq<char> {
        "GtzGate"@
    }

    fn name(&self) -> &'static str {
        "GtzGate"
    }

    fn dim_row(&self) -> usize {
        self.data.dim_row
    }

    fn dim_col(&self) -> usize {
        self.data.dim_col
    }

    fn lambda_shr(&self) -> &Vec<S::SemiShrType> {
        &self.data.lambda_shr
    }

    fn lambda_shr_mac(&self) -> &Vec<S::SemiShrType> {
        &self.data.lambda_shr_mac
    }

    fn delta_clear(&self) -> &Vec<S::SemiShrType> {
        &self.data.delta_clear
    }

    fn input_x(&self) -> Option<usize> {
        self.data.input_x
    }

    fn input_y(&self) -> Option<usize> {
        self.data.input_y
    }

    fn is_read_offline(&self) -> bool {
        self.data.read_offline
    }

    fn is_evaluated_online(&self) -> bool {
        self.data.evaluated_online
    }
}

} // verus!
