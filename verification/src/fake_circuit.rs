//! The dealer's circuits: the same arena of gates as a party's circuit, each
//! gate dealing its preprocessing data in the order the parties read it.
use crate::dealer::{shares_hide, widened_bytes, FakeParty};
use crate::fake_add_constant_gate::FakeAddConstantGate;
use crate::fake_add_gate::FakeAddGate;
use crate::fake_elem_multiply_gate::{elem_dealing_ok, FakeElemMultiplyGate};
use crate::fake_gate::{copy_rows, fake_fresh, FakeGate, FakeGateData};
use crate::fake_gtz_gate::{column_of, xor_fold, FakeGtzGate};
use crate::fake_input_gate::FakeInputGate;
use crate::fake_multiply_gate::{dealing_bytes, matmul_dealing_ok, FakeMultiplyGate, MultiplyDealing};
use crate::fake_multiply_trunc_gate::FakeMultiplyTruncGate;
use crate::fake_output_gate::FakeOutputGate;
use crate::fake_subtract_gate::FakeSubtractGate;
use crate::gate::size_ok;
use crate::order::{inputs_before, inputs_earlier, lemma_order_valid, links_ok, order_from, valid_order, visit_spec};
use crate::fixed_point::truncated;
use crate::ring::{seq_add, seq_sub};
use crate::share::{copy_elems, modulus, seq_to_bytes, values, Spdz2kShare};
use vstd::prelude::*;

verus! {

/// A gate of a dealer's circuit.
pub enum FakeGateNode<S: Spdz2kShare, const N: usize> {
    Input(FakeInputGate<S, N>),
    Add(FakeAddGate<S, N>),
    Subtract(FakeSubtractGate<S, N>),
    AddConstant(FakeAddConstantGate<S, N>),
    Multiply(FakeMultiplyGate<S, N>),
    MultiplyTrunc(FakeMultiplyTruncGate<S, N>),
    ElemMultiply(FakeElemMultiplyGate<S, N>),
    Gtz(FakeGtzGate<S, N>),
    Output(FakeOutputGate<S, N>),
}

impl<S: Spdz2kShare, const N: usize> FakeGate<S, N> for FakeGateNode<S, N> {
    open spec fn fake_data(&self) -> FakeGateData<S, N> {
        match self {
            FakeGateNode::Input(g) => g.fake_data(),
            FakeGateNode::Add(g) => g.fake_data(),
            FakeGateNode::Subtract(g) => g.fake_data(),
            FakeGateNode::AddConstant(g) => g.fake_data(),
            FakeGateNode::Multiply(g) => g.fake_data(),
            FakeGateNode::MultiplyTrunc(g) => g.fake_data(),
            FakeGateNode::ElemMultiply(g) => g.fake_data(),
            FakeGateNode::Gtz(g) => g.fake_data(),
            FakeGateNode::Output(g) => g.fake_data(),
        }
    }

    open spec fn gate_name(&self) -> Seq<char> {
        match self {
            FakeGateNode::Input(g) => g.gate_name(),
            FakeGateNode::Add(g) => g.gate_name(),
            FakeGateNode::Subtract(g) => g.gate_name(),
            FakeGateNode::AddConstant(g) => g.gate_name(),
            FakeGateNode::Multiply(g) => g.gate_name(),
            FakeGateNode::MultiplyTrunc(g) => g.gate_name(),
            FakeGateNode::ElemMultiply(g) => g.gate_name(),
            FakeGateNode::Gtz(g) => g.gate_name(),
            FakeGateNode::Output(g) => g.gate_name(),
        }
    }

    fn name(&self) -> &'static str {
        match self {
            FakeGateNode::Input(g) => g.name(),
            FakeGateNode::Add(g) => g.name(),
            FakeGateNode::Subtract(g) => g.name(),
            FakeGateNode::AddConstant(g) => g.name(),
            FakeGateNode::Multiply(g) => g.name(),
            FakeGateNode::MultiplyTrunc(g) => g.name(),
            FakeGateNode::ElemMultiply(g) => g.name(),
            FakeGateNode::Gtz(g) => g.name(),
            FakeGateNode::Output(g) => g.name(),
        }
    }

    fn dim_row(&self) -> usize {
        match self {
            FakeGateNode::Input(g) => g.dim_row(),
            FakeGateNode::Add(g) => g.dim_row(),
            FakeGateNode::Subtract(g) => g.dim_row(),
            FakeGateNode::AddConstant(g) => g.dim_row(),
            FakeGateNode::Multiply(g) => g.dim_row(),
            FakeGateNode::MultiplyTrunc(g) => g.dim_row(),
            FakeGateNode::ElemMultiply(g) => g.dim_row(),
            FakeGateNode::Gtz(g) => g.dim_row(),
            FakeGateNode::Output(g) => g.dim_row(),
        }
    }

    fn dim_col(&self) -> usize {
        match self {
            FakeGateNode::Input(g) => g.dim_col(),
            FakeGateNode::Add(g) => g.dim_col(),
            FakeGateNode::Subtract(g) => g.dim_col(),
            FakeGateNode::AddConstant(g) => g.dim_col(),
            FakeGateNode::Multiply(g) => g.dim_col(),
            FakeGateNode::MultiplyTrunc(g) => g.dim_col(),
            FakeGateNode::ElemMultiply(g) => g.dim_col(),
            FakeGateNode::Gtz(g) => g.dim_col(),
            FakeGateNode::Output(g) => g.dim_col(),
        }
    }

    fn input_x(&self) -> Option<usize> {
        match self {
            FakeGateNode::Input(g) => g.input_x(),
            FakeGateNode::Add(g) => g.input_x(),
            FakeGateNode::Subtract(g) => g.input_x(),
            FakeGateNode::AddConstant(g) => g.input_x(),
            FakeGateNode::Multiply(g) => g.input_x(),
            FakeGateNode::MultiplyTrunc(g) => g.input_x(),
            FakeGateNode::ElemMultiply(g) => g.input_x(),
            FakeGateNode::Gtz(g) => g.input_x(),
            FakeGateNode::Output(g) => g.input_x(),
        }
    }

    fn input_y(&self) -> Option<usize> {
        match self {
            FakeGateNode::Input(g) => g.input_y(),
            FakeGateNode::Add(g) => g.input_y(),
            FakeGateNode::Subtract(g) => g.input_y(),
            FakeGateNode::AddConstant(g) => g.input_y(),
            FakeGateNode::Multiply(g) => g.input_y(),
            FakeGateNode::MultiplyTrunc(g) => g.input_y(),
            FakeGateNode::ElemMultiply(g) => g.input_y(),
            FakeGateNode::Gtz(g) => g.input_y(),
            FakeGateNode::Output(g) => g.input_y(),
        }
    }

    fn lambda_clear(&self) -> &Vec<S::ClearType> {
        match self {
            FakeGateNode::Input(g) => g.lambda_clear(),
            FakeGateNode::Add(g) => g.lambda_clear(),
            FakeGateNode::Subtract(g) => g.lambda_clear(),
            FakeGateNode::AddConstant(g) => g.lambda_clear(),
            FakeGateNode::Multiply(g) => g.lambda_clear(),
            FakeGateNode::MultiplyTrunc(g) => g.lambda_clear(),
            FakeGateNode::ElemMultiply(g) => g.lambda_clear(),
            FakeGateNode::Gtz(g) => g.lambda_clear(),
            FakeGateNode::Output(g) => g.lambda_clear(),
        }
    }

    fn lambda_shr(&self) -> &Vec<Vec<S::SemiShrType>> {
        match self {
            FakeGateNode::Input(g) => g.lambda_shr(),
            FakeGateNode::Add(g) => g.lambda_shr(),
            FakeGateNode::Subtract(g) => g.lambda_shr(),
            FakeGateNode::AddConstant(g) => g.lambda_shr(),
            FakeGateNode::Multiply(g) => g.lambda_shr(),
            FakeGateNode::MultiplyTrunc(g) => g.lambda_shr(),
            FakeGateNode::ElemMultiply(g) => g.lambda_shr(),
            FakeGateNode::Gtz(g) => g.lambda_shr(),
            FakeGateNode::Output(g) => g.lambda_shr(),
        }
    }

    fn lambda_shr_mac(&self) -> &Vec<Vec<S::SemiShrType>> {
        match self {
            FakeGateNode::Input(g) => g.lambda_shr_mac(),
            FakeGateNode::Add(g) => g.lambda_shr_mac(),
            FakeGateNode::Subtract(g) => g.lambda_shr_mac(),
            FakeGateNode::AddConstant(g) => g.lambda_shr_mac(),
            FakeGateNode::Multiply(g) => g.lambda_shr_mac(),
            FakeGateNode::MultiplyTrunc(g) => g.lambda_shr_mac(),
            FakeGateNode::ElemMultiply(g) => g.lambda_shr_mac(),
            FakeGateNode::Gtz(g) => g.lambda_shr_mac(),
            FakeGateNode::Output(g) => g.lambda_shr_mac(),
        }
    }

    fn is_evaluated_offline(&self) -> bool {
        match self {
            FakeGateNode::Input(g) => g.is_evaluated_offline(),
            FakeGateNode::Add(g) => g.is_evaluated_offline(),
            FakeGateNode::Subtract(g) => g.is_evaluated_offline(),
            FakeGateNode::AddConstant(g) => g.is_evaluated_offline(),
            FakeGateNode::Multiply(g) => g.is_evaluated_offline(),
            FakeGateNode::MultiplyTrunc(g) => g.is_evaluated_offline(),
            FakeGateNode::ElemMultiply(g) => g.is_evaluated_offline(),
            FakeGateNode::Gtz(g) => g.is_evaluated_offline(),
            FakeGateNode::Output(g) => g.is_evaluated_offline(),
        }
    }
}

/// The inputs of node i come before it and have its dimensions.
pub open spec fn fake_two_inputs<S: Spdz2kShare, const N: usize>(nodes: Seq<FakeGateNode<S, N>>, i: int) -> bool {
    let d = nodes[i].fake_data();
    match (d.input_x, d.input_y) {
        (Some(x), Some(y)) => {
            &&& x < i
            &&& y < i
            &&& nodes[x as int].fake_data().dim_row == d.dim_row
            &&& nodes[x as int].fake_data().dim_col == d.dim_col
            &&& nodes[y as int].fake_data().dim_row == d.dim_row
            &&& nodes[y as int].fake_data().dim_col == d.dim_col
        },
        _ => false,
    }
}

/// Node i has one input, before it and with its dimensions.
pub open spec fn fake_one_input<S: Spdz2kShare, const N: usize>(nodes: Seq<FakeGateNode<S, N>>, i: int) -> bool {
    let d = nodes[i].fake_data();
    match (d.input_x, d.input_y) {
        (Some(x), None) => {
            &&& x < i
            &&& nodes[x as int].fake_data().dim_row == d.dim_row
            &&& nodes[x as int].fake_data().dim_col == d.dim_col
        },
        _ => false,
    }
}

/// Node i multiplies a rows x mid input by a mid x cols input.
pub open spec fn fake_product<S: Spdz2kShare, const N: usize>(nodes: Seq<FakeGateNode<S, N>>, i: int, mid: usize) -> bool {
    let d = nodes[i].fake_data();
    match (d.input_x, d.input_y) {
        (Some(x), Some(y)) => {
            &&& x < i
            &&& y < i
            &&& nodes[x as int].fake_data().dim_row == d.dim_row
            &&& nodes[x as int].fake_data().dim_col == mid
            &&& nodes[y as int].fake_data().dim_row == mid
            &&& nodes[y as int].fake_data().dim_col == d.dim_col
            &&& size_ok(d.dim_row as int, mid as int)
            &&& size_ok(mid as int, d.dim_col as int)
        },
        _ => false,
    }
}

/// Node i is a gate of its kind, with its inputs before it and N rows of
/// shares.
pub open spec fn fake_shape<S: Spdz2kShare, const N: usize>(nodes: Seq<FakeGateNode<S, N>>, i: int) -> bool {
    let d = nodes[i].fake_data();
    &&& size_ok(d.dim_row as int, d.dim_col as int)
    &&& d.lambda_shr@.len() == N
    &&& d.lambda_shr_mac@.len() == N
    &&& match nodes[i] {
        FakeGateNode::Input(ig) => d.input_x is None && d.input_y is None && ig.owner() < N,
        FakeGateNode::Add(_) => fake_two_inputs(nodes, i),
        FakeGateNode::Subtract(_) => fake_two_inputs(nodes, i),
        FakeGateNode::ElemMultiply(_) => fake_two_inputs(nodes, i),
        FakeGateNode::AddConstant(_) => fake_one_input(nodes, i),
        FakeGateNode::Output(_) => fake_one_input(nodes, i),
        FakeGateNode::Gtz(_) => fake_one_input(nodes, i),
        FakeGateNode::Multiply(m) => fake_product(nodes, i, m.mid()),
        FakeGateNode::MultiplyTrunc(m) => fake_product(nodes, i, m.mid()),
    }
}

/// Two nodes of the same kind, dimensions, inputs and rows of shares.
pub open spec fn fake_same_shape<S: Spdz2kShare, const N: usize>(a: FakeGateNode<S, N>, b: FakeGateNode<S, N>) -> bool {
    &&& a.fake_data().dim_row == b.fake_data().dim_row
    &&& a.fake_data().dim_col == b.fake_data().dim_col
    &&& a.fake_data().input_x == b.fake_data().input_x
    &&& a.fake_data().input_y == b.fake_data().input_y
    &&& b.fake_data().lambda_shr@.len() == N
    &&& b.fake_data().lambda_shr_mac@.len() == N
    &&& match (a, b) {
        (FakeGateNode::Input(g1), FakeGateNode::Input(g2)) => g1.owner() == g2.owner(),
        (FakeGateNode::Add(_), FakeGateNode::Add(_)) => true,
        (FakeGateNode::Subtract(_), FakeGateNode::Subtract(_)) => true,
        (FakeGateNode::ElemMultiply(_), FakeGateNode::ElemMultiply(_)) => true,
        (FakeGateNode::AddConstant(_), FakeGateNode::AddConstant(_)) => true,
        (FakeGateNode::Output(_), FakeGateNode::Output(_)) => true,
        (FakeGateNode::Gtz(_), FakeGateNode::Gtz(_)) => true,
        (FakeGateNode::Multiply(m1), FakeGateNode::Multiply(m2)) => m1.mid() == m2.mid(),
        (FakeGateNode::MultiplyTrunc(m1), FakeGateNode::MultiplyTrunc(m2)) => m1.mid() == m2.mid(),
        _ => false,
    }
}

/// The input handles of every gate.
pub open spec fn fake_links_of<S: Spdz2kShare, const N: usize>(nodes: Seq<FakeGateNode<S, N>>) -> Seq<(Option<usize>, Option<usize>)> {
    nodes.map_values(|n: FakeGateNode<S, N>| (n.fake_data().input_x, n.fake_data().input_y))
}

/// Node g holds what the dealer deals for its kind, given its inputs' data in
/// `nodes`, and `w` holds, party by party, the bytes the dealer wrote for it:
/// a fresh mask shared under the key (input; a comparison also deals boolean
/// shares of its input's mask), the sum or
/// difference of its inputs' masks and shares (add, subtract), its input's
/// mask and shares (add constant), nothing (output), or the mask of a dealing
/// of a triple for its inputs' masks (products; the truncated mask, freshly
/// shared, for a product with truncation).
pub open spec fn fake_dealt<S: Spdz2kShare, const N: usize>(nodes: Seq<FakeGateNode<S, N>>, g: int, key: int, w: Seq<Seq<u8>>) -> bool {
    let d = nodes[g].fake_data();
    let x = nodes[d.input_x.unwrap() as int].fake_data();
    let y = nodes[d.input_y.unwrap() as int].fake_data();
    let ms = modulus::<S::SemiShrType>();
    &&& w.len() == N
    &&& match nodes[g] {
        FakeGateNode::Input(ig) => {
            &&& d.lambda_clear@.len() == d.dim_row * d.dim_col
            &&& shares_hide::<S>(d.lambda_shr@, d.lambda_shr_mac@, values(d.lambda_clear@), key, N as int)
            &&& forall|i: int| 0 <= i < N ==> #[trigger] w[i] == (if i == ig.owner() { widened_bytes::<S>(d.lambda_clear@) } else { Seq::<u8>::empty() })
                + seq_to_bytes(d.lambda_shr@[i]@) + seq_to_bytes(d.lambda_shr_mac@[i]@)
        },
        FakeGateNode::Gtz(_) => {
            &&& d.lambda_clear@.len() == d.dim_row * d.dim_col
            &&& shares_hide::<S>(d.lambda_shr@, d.lambda_shr_mac@, values(d.lambda_clear@), key, N as int)
            &&& exists|bool_shares: Seq<Vec<S::ClearType>>|
                #![trigger bool_shares.len()]
                bool_shares.len() == N
                && (forall|i: int| 0 <= i < N ==> (#[trigger] bool_shares[i])@.len() == d.lambda_clear@.len())
                && (forall|idx: int| 0 <= idx < d.lambda_clear@.len() ==> xor_fold(#[trigger] column_of(bool_shares, idx)) == x.lambda_clear@[idx])
                && forall|i: int| 0 <= i < N ==> #[trigger] w[i] == seq_to_bytes(d.lambda_shr@[i]@) + seq_to_bytes(d.lambda_shr_mac@[i]@) + seq_to_bytes(bool_shares[i]@)
        },
        FakeGateNode::Add(_) => {
            &&& values(d.lambda_clear@) == seq_add(values(x.lambda_clear@), values(y.lambda_clear@), modulus::<S::ClearType>())
            &&& forall|i: int| 0 <= i < N ==> values((#[trigger] d.lambda_shr@[i])@) == seq_add(values(x.lambda_shr@[i]@), values(y.lambda_shr@[i]@), ms)
            &&& forall|i: int| 0 <= i < N ==> values((#[trigger] d.lambda_shr_mac@[i])@) == seq_add(values(x.lambda_shr_mac@[i]@), values(y.lambda_shr_mac@[i]@), ms)
            &&& forall|i: int| 0 <= i < N ==> #[trigger] w[i] == seq_to_bytes(d.lambda_shr@[i]@) + seq_to_bytes(d.lambda_shr_mac@[i]@)
        },
        FakeGateNode::Subtract(_) => {
            &&& values(d.lambda_clear@) == seq_sub(values(x.lambda_clear@), values(y.lambda_clear@), modulus::<S::ClearType>())
            &&& forall|i: int| 0 <= i < N ==> values((#[trigger] d.lambda_shr@[i])@) == seq_sub(values(x.lambda_shr@[i]@), values(y.lambda_shr@[i]@), ms)
            &&& forall|i: int| 0 <= i < N ==> values((#[trigger] d.lambda_shr_mac@[i])@) == seq_sub(values(x.lambda_shr_mac@[i]@), values(y.lambda_shr_mac@[i]@), ms)
            &&& forall|i: int| 0 <= i < N ==> #[trigger] w[i] == Seq::<u8>::empty()
        },
        FakeGateNode::AddConstant(_) => {
            &&& d.lambda_clear@ == x.lambda_clear@
            &&& forall|i: int| 0 <= i < N ==> (#[trigger] d.lambda_shr@[i])@ == x.lambda_shr@[i]@
            &&& forall|i: int| 0 <= i < N ==> (#[trigger] d.lambda_shr_mac@[i])@ == x.lambda_shr_mac@[i]@
            &&& forall|i: int| 0 <= i < N ==> #[trigger] w[i] == Seq::<u8>::empty()
        },
        FakeGateNode::Output(_) => forall|i: int| 0 <= i < N ==> #[trigger] w[i] == Seq::<u8>::empty(),
        FakeGateNode::Multiply(m) => exists|dd: MultiplyDealing<S, N>|
            #[trigger] matmul_dealing_ok(dd, x.lambda_clear@, y.lambda_clear@, d.dim_row as int, m.mid() as int, d.dim_col as int, key)
            && dd.lambda_clear == d.lambda_clear
            && dd.lambda.value_shares == d.lambda_shr
            && dd.lambda.mac_shares == d.lambda_shr_mac
            && forall|i: int| 0 <= i < N ==> #[trigger] w[i] == dealing_bytes(dd, i),
        FakeGateNode::MultiplyTrunc(m) => {
            &&& shares_hide::<S>(d.lambda_shr@, d.lambda_shr_mac@, values(d.lambda_clear@), key, N as int)
            &&& exists|dd: MultiplyDealing<S, N>|
                #[trigger] matmul_dealing_ok(dd, x.lambda_clear@, y.lambda_clear@, d.dim_row as int, m.mid() as int, d.dim_col as int, key)
                && values(d.lambda_clear@) == values(dd.lambda_clear@).map_values(|v: int| truncated(v))
                && forall|i: int| 0 <= i < N ==> #[trigger] w[i] == dealing_bytes(dd, i) + seq_to_bytes(d.lambda_shr@[i]@) + seq_to_bytes(d.lambda_shr_mac@[i]@)
        },
        FakeGateNode::ElemMultiply(_) => exists|dd: MultiplyDealing<S, N>|
            #[trigger] elem_dealing_ok(dd, x.lambda_clear@, y.lambda_clear@, d.dim_row * d.dim_col, key)
            && dd.lambda_clear == d.lambda_clear
            && dd.lambda.value_shares == d.lambda_shr
            && dd.lambda.mac_shares == d.lambda_shr_mac
            && forall|i: int| 0 <= i < N ==> #[trigger] w[i] == dealing_bytes(dd, i),
    }
}

/// Party i's bytes of a run of gates: the bytes written for each, in order.
pub open spec fn written(ws: Seq<Seq<Seq<u8>>>, i: int) -> Seq<u8>
    decreases ws.len(),
{
    if ws.len() == 0 {
        Seq::<u8>::empty()
    } else {
        written(ws.drop_last(), i) + ws.last()[i]
    }
}

/// Nothing written, for each of N parties.
pub open spec fn nothing_written(n: int) -> Seq<Seq<u8>> {
    Seq::new(n as nat, |i: int| Seq::<u8>::empty())
}

/// Two nodes of the same kind with the same inputs.
pub open spec fn same_links<S: Spdz2kShare, const N: usize>(a: FakeGateNode<S, N>, b: FakeGateNode<S, N>) -> bool {
    &&& a.fake_data().input_x == b.fake_data().input_x
    &&& a.fake_data().input_y == b.fake_data().input_y
    &&& match (a, b) {
        (FakeGateNode::Input(_), FakeGateNode::Input(_)) => true,
        (FakeGateNode::Add(_), FakeGateNode::Add(_)) => true,
        (FakeGateNode::Subtract(_), FakeGateNode::Subtract(_)) => true,
        (FakeGateNode::AddConstant(_), FakeGateNode::AddConstant(_)) => true,
        (FakeGateNode::Multiply(_), FakeGateNode::Multiply(_)) => true,
        (FakeGateNode::MultiplyTrunc(_), FakeGateNode::MultiplyTrunc(_)) => true,
        (FakeGateNode::ElemMultiply(_), FakeGateNode::ElemMultiply(_)) => true,
        (FakeGateNode::Gtz(_), FakeGateNode::Gtz(_)) => true,
        (FakeGateNode::Output(_), FakeGateNode::Output(_)) => true,
        _ => false,
    }
}

/// Gate h deals a mask of its own size: it is no output gate, and the sums,
/// differences and copies it is made of come from such gates.
pub open spec fn mask_ready<S: Spdz2kShare, const N: usize>(nodes: Seq<FakeGateNode<S, N>>, h: int) -> bool
    decreases h,
{
    if h < 0 || h >= nodes.len() {
        false
    } else {
        let d = nodes[h].fake_data();
        match nodes[h] {
            FakeGateNode::Output(_) => false,
            FakeGateNode::Add(_) | FakeGateNode::Subtract(_) => match (d.input_x, d.input_y) {
                (Some(x), Some(y)) => if x < h && y < h {
                    mask_ready(nodes, x as int) && mask_ready(nodes, y as int)
                } else {
                    false
                },
                _ => false,
            },
            FakeGateNode::AddConstant(_) => match d.input_x {
                Some(x) => if x < h {
                    mask_ready(nodes, x as int)
                } else {
                    false
                },
                None => false,
            },
            _ => true,
        }
    }
}

/// A dealt gate that deals a mask of its own size holds one.
pub open spec fn mask_ok<S: Spdz2kShare, const N: usize>(nodes: Seq<FakeGateNode<S, N>>, h: int) -> bool {
    nodes[h].fake_data().evaluated_offline && mask_ready(nodes, h)
        ==> nodes[h].fake_data().lambda_clear@.len() == nodes[h].fake_data().dim_row * nodes[h].fake_data().dim_col
}

/// The comparison gates compare with the mask of a gate that deals one of
/// its own size.
pub open spec fn gtz_inputs_ready<S: Spdz2kShare, const N: usize>(nodes: Seq<FakeGateNode<S, N>>) -> bool {
    forall|h: int| 0 <= h < nodes.len() && #[trigger] nodes[h] is Gtz ==> mask_ready(nodes, nodes[h].fake_data().input_x.unwrap() as int)
}

/// mask_ready only reads the kinds and inputs of gates up to h.
proof fn lemma_mask_ready_frame<S: Spdz2kShare, const N: usize>(n1: Seq<FakeGateNode<S, N>>, n2: Seq<FakeGateNode<S, N>>, h: int)
    requires
        h < n1.len(),
        n1.len() <= n2.len(),
        forall|j: int| 0 <= j <= h ==> #[trigger] same_links(n1[j], n2[j]),
    ensures
        mask_ready(n1, h) == mask_ready(n2, h),
    decreases h,
{
    if 0 <= h < n1.len() {
        assert(same_links(n1[h], n2[h]));
        let d = n1[h].fake_data();
        if let Some(x) = d.input_x {
            if x < h {
                lemma_mask_ready_frame(n1, n2, x as int);
            }
        }
        if let Some(y) = d.input_y {
            if y < h {
                lemma_mask_ready_frame(n1, n2, y as int);
            }
        }
    }
}

/// Bytes appended after `o` are what follows it.
proof fn lemma_appended(o: Seq<u8>, p: Seq<u8>, e: Seq<u8>)
    requires
        p == o + e,
    ensures
        p.subrange(o.len() as int, p.len() as int) == e,
{
    assert(p.subrange(o.len() as int, p.len() as int) =~= e);
}

pub struct FakeCircuit<S: Spdz2kShare, const N: usize> {
    gates: Vec<FakeGateNode<S, N>>,
    endpoints: Vec<usize>,
}

impl<S: Spdz2kShare, const N: usize> FakeCircuit<S, N> {
    pub closed spec fn nodes(&self) -> Seq<FakeGateNode<S, N>> {
        self.gates@
    }

    pub closed spec fn endpoint_seq(&self) -> Seq<usize> {
        self.endpoints@
    }

    /// Every gate has its inputs before it, in matching dimensions, and N
    /// rows of shares; the endpoints are gates.
    pub closed spec fn well_formed(&self) -> bool {
        &&& forall|i: int| 0 <= i < self.gates@.len() ==> #[trigger] fake_shape(self.gates@, i)
        &&& forall|k: int| 0 <= k < self.endpoints@.len() ==> #[trigger] self.endpoints@[k] < self.gates@.len()
        &&& forall|i: int| 0 <= i < self.gates@.len() ==> #[trigger] mask_ok(self.gates@, i)
    }

    /// A well-formed dealer's circuit: every gate has the shape of its kind,
    /// and every endpoint is one of its gates.
    pub proof fn lemma_shapes(&self)
        requires
            self.well_formed(),
        ensures
            self.nodes().len() <= usize::MAX,
            forall|h: int| 0 <= h < self.nodes().len() ==> #[trigger] fake_shape(self.nodes(), h),
            forall|k: int| 0 <= k < self.endpoint_seq().len() ==> #[trigger] self.endpoint_seq()[k] < self.nodes().len(),
    {
        assert(self.gates@.len() == self.gates.len());
    }

    proof fn lemma_update_keeps_shape(nodes: Seq<FakeGateNode<S, N>>, g: int, new: FakeGateNode<S, N>)
        requires
            0 <= g < nodes.len(),
            forall|i: int| 0 <= i < nodes.len() ==> #[trigger] fake_shape(nodes, i),
            fake_same_shape(nodes[g], new),
        ensures
            forall|i: int| 0 <= i < nodes.len() ==> #[trigger] fake_shape(nodes.update(g, new), i),
    {
        let n2 = nodes.update(g, new);
        assert forall|i: int| 0 <= i < nodes.len() implies #[trigger] fake_shape(n2, i) by {
            assert(fake_shape(nodes, i));
        }
    }

    proof fn lemma_links(nodes: Seq<FakeGateNode<S, N>>)
        requires
            forall|i: int| 0 <= i < nodes.len() ==> #[trigger] fake_shape(nodes, i),
        ensures
            links_ok(fake_links_of(nodes)),
    {
        assert forall|g: int| 0 <= g < nodes.len() implies #[trigger] inputs_earlier(fake_links_of(nodes), g) by {
            assert(fake_shape(nodes, g));
        }
    }

    pub fn new() -> (r: Self)
        ensures
            r.well_formed(),
            r.nodes().len() == 0,
            r.endpoint_seq().len() == 0,
    {
        FakeCircuit { gates: Vec::new(), endpoints: Vec::new() }
    }

    pub fn num_gates(&self) -> (r: usize)
        ensures
            r == self.nodes().len(),
    {
        self.gates.len()
    }

    /// The dimensions (rows, columns) of gate `g`.
    pub fn dims(&self, g: usize) -> (r: (usize, usize))
        requires
            g < self.nodes().len(),
        ensures
            r == (self.nodes()[g as int].fake_data().dim_row, self.nodes()[g as int].fake_data().dim_col),
    {
        (self.gates[g].dim_row(), self.gates[g].dim_col())
    }

    /// This gate: handle `g`.
    pub fn gate(&self, g: usize) -> (r: &FakeGateNode<S, N>)
        requires
            g < self.nodes().len(),
        ensures
            *r == self.nodes()[g as int],
    {
        &self.gates[g]
    }

    pub fn add_endpoint(&mut self, g: usize)
        requires
            old(self).well_formed(),
            g < old(self).nodes().len(),
        ensures
            final(self).well_formed(),
            final(self).nodes() == old(self).nodes(),
            final(self).endpoint_seq() == old(self).endpoint_seq().push(g),
    {
        self.endpoints.push(g);
    }

    fn push_gate(&mut self, node: FakeGateNode<S, N>) -> (r: usize)
        requires
            old(self).well_formed(),
            fake_shape(old(self).nodes().push(node), old(self).nodes().len() as int),
            !node.fake_data().evaluated_offline,
        ensures
            final(self).well_formed(),
            r == old(self).nodes().len(),
            final(self).nodes() == old(self).nodes().push(node),
            final(self).endpoint_seq() == old(self).endpoint_seq(),
    {
        proof {
            let n2 = self.gates@.push(node);
            assert forall|i: int| 0 <= i < n2.len() implies #[trigger] fake_shape(n2, i) by {
                if i < self.gates@.len() {
                    assert(fake_shape(self.gates@, i));
                    assert(n2[i] == self.gates@[i]);
                }
            }
            assert forall|i: int| 0 <= i < n2.len() implies #[trigger] mask_ok(n2, i) by {
                if i < self.gates@.len() {
                    assert(mask_ok(self.gates@, i));
                    assert forall|j: int| 0 <= j <= i implies #[trigger] same_links(self.gates@[j], n2[j]) by {
                        assert(n2[j] == self.gates@[j]);
                    }
                    lemma_mask_ready_frame(self.gates@, n2, i);
                }
            }
        }
        let r = self.gates.len();
        self.gates.push(node);
        r
    }

    fn visit(&self, g: usize, visited: &mut Vec<bool>, order: &mut Vec<usize>)
        requires
            self.well_formed(),
            g < self.nodes().len(),
            old(visited)@.len() == self.nodes().len(),
            forall|h: int| 0 <= h < self.nodes().len() ==> (#[trigger] old(visited)@[h] <==> old(order)@.contains(h as usize)),
        ensures
            final(order)@ == visit_spec(fake_links_of(self.nodes()), g as int, old(order)@),
            final(visited)@.len() == self.nodes().len(),
            forall|h: int| 0 <= h < self.nodes().len() ==> (#[trigger] final(visited)@[h] <==> final(order)@.contains(h as usize)),
        decreases g,
    {
        if visited[g] {
            return;
        }
        proof {
            assert(fake_shape(self.gates@, g as int));
        }
        let ghost o0 = order@;
        match self.gates[g].input_x() {
            Some(x) => self.visit(x, visited, order),
            None => {},
        }
        let ghost o1 = order@;
        match self.gates[g].input_y() {
            Some(y) => self.visit(y, visited, order),
            None => {},
        }
        let ghost o2 = order@;
        proof {
            assert(!o0.contains(g));
            assert(fake_links_of(self.nodes())[g as int] == (self.gates@[g as int].fake_data().input_x, self.gates@[g as int].fake_data().input_y));
            assert(o2 == match self.gates@[g as int].fake_data().input_y {
                Some(y) => if y < g { visit_spec(fake_links_of(self.nodes()), y as int, o1) } else { o1 },
                None => o1,
            });
            assert(o1 == match self.gates@[g as int].fake_data().input_x {
                Some(x) => if x < g { visit_spec(fake_links_of(self.nodes()), x as int, o0) } else { o0 },
                None => o0,
            });
        }
        order.push(g);
        visited.set(g, true);
        proof {
            assert forall|h: int| 0 <= h < self.nodes().len() implies (#[trigger] visited@[h] <==> order@.contains(h as usize)) by {
                if h == g {
                    assert(order@[order@.len() - 1] == g);
                } else {
                    if o2.contains(h as usize) {
                        let k = choose|k: int| 0 <= k < o2.len() && o2[k] == h as usize;
                        assert(order@[k] == o2[k]);
                    }
                    assert(h < self.gates.len());
                    assert((h as usize) as int == h);
                    if order@.contains(h as usize) {
                        let k = choose|k: int| 0 <= k < order@.len() && order@[k] == h as usize;
                        if k == o2.len() {
                            assert(order@[k] == g);
                        }
                        assert(k < o2.len());
                        assert(o2[k] == order@[k]);
                    }
                }
            }
        }
    }

    /// The order in which this gates are evaluated, both when reading the
    /// preprocessing data and online: a depth-first walk from each endpoint
    /// in turn, each gate after its inputs (first input first), skipping the
    /// gates already walked.
    pub fn evaluation_order(&self) -> (r: Vec<usize>)
        requires
            self.well_formed(),
        ensures
            r@ == order_from(fake_links_of(self.nodes()), self.endpoint_seq()),
            valid_order(fake_links_of(self.nodes()), r@),
            forall|k: int| 0 <= k < self.endpoint_seq().len() ==> r@.contains(#[trigger] self.endpoint_seq()[k]),
    {
        proof {
            assert(self.gates@.len() == self.gates.len());
            Self::lemma_links(self.gates@);
            lemma_order_valid(fake_links_of(self.gates@), self.endpoints@);
        }
        let n = self.gates.len();
        let mut visited: Vec<bool> = Vec::with_capacity(n);
        for i in 0..n
            invariant
                visited@.len() == i,
                forall|h: int| 0 <= h < i ==> !(#[trigger] visited@[h]),
        {
            visited.push(false);
        }
        let mut order: Vec<usize> = Vec::new();
        let m = self.endpoints.len();
        for k in 0..m
            invariant
                self.well_formed(),
                m == self.endpoints@.len(),
                n == self.gates@.len(),
                visited@.len() == n,
                order@ == order_from(fake_links_of(self.nodes()), self.endpoints@.subrange(0, k as int)),
                forall|h: int| 0 <= h < n ==> (#[trigger] visited@[h] <==> order@.contains(h as usize)),
        {
            let e = self.endpoints[k];
            proof {
                let sub = self.endpoints@.subrange(0, k as int + 1);
                assert(sub.drop_last() =~= self.endpoints@.subrange(0, k as int));
                assert(sub.last() == e);
            }
            self.visit(e, &mut visited, &mut order);
        }
        proof {
            assert(self.endpoints@.subrange(0, m as int) =~= self.endpoints@);
        }
        order
    }


    /// Gate `g` deals its preprocessing data, from its inputs' masks and
    /// shares.
    pub fn run_gate_offline(&mut self, g: usize, party: &mut FakeParty<S, N>)
        requires
            old(self).well_formed(),
            g < old(self).nodes().len(),
            old(party).well_formed(),
            N >= 1,
            old(self).nodes()[g as int].fake_data().input_x matches Some(x) ==> old(self).nodes()[x as int].fake_data().evaluated_offline,
            old(self).nodes()[g as int].fake_data().input_y matches Some(y) ==> old(self).nodes()[y as int].fake_data().evaluated_offline,
            old(self).nodes()[g as int] is Gtz ==> old(self).nodes()[old(self).nodes()[g as int].fake_data().input_x.unwrap() as int].fake_data().lambda_clear@.len()
                >= old(self).nodes()[g as int].fake_data().dim_row * old(self).nodes()[g as int].fake_data().dim_col,
        ensures
            final(self).well_formed(),
            final(self).endpoint_seq() == old(self).endpoint_seq(),
            final(self).nodes().len() == old(self).nodes().len(),
            forall|h: int| 0 <= h < old(self).nodes().len() && h != g ==> #[trigger] final(self).nodes()[h] == old(self).nodes()[h],
            fake_same_shape(old(self).nodes()[g as int], final(self).nodes()[g as int]),
            final(self).nodes()[g as int].fake_data().evaluated_offline,
            final(party).well_formed(),
            final(party).key() == old(party).key(),
            final(party).key_share_values() == old(party).key_share_values(),
            exists|w: Seq<Seq<u8>>|
                #[trigger] fake_dealt(final(self).nodes(), g as int, old(party).key(), w)
                && forall|i: int| 0 <= i < N ==> #[trigger] final(party).pending()[i] == old(party).pending()[i] + w[i],
    {
        proof {
            assert(fake_shape(self.gates@, g as int));
        }
        let (x_clear, x_shr, x_mac) = match self.gates[g].input_x() {
            Some(x) => (copy_elems(self.gates[x].lambda_clear().as_slice()), copy_rows(self.gates[x].lambda_shr()), copy_rows(self.gates[x].lambda_shr_mac())),
            None => (Vec::new(), Vec::new(), Vec::new()),
        };
        let (y_clear, y_shr, y_mac) = match self.gates[g].input_y() {
            Some(y) => (copy_elems(self.gates[y].lambda_clear().as_slice()), copy_rows(self.gates[y].lambda_shr()), copy_rows(self.gates[y].lambda_shr_mac())),
            None => (Vec::new(), Vec::new(), Vec::new()),
        };
        proof {
            if let Some(x) = self.gates@[g as int].fake_data().input_x {
                assert(fake_shape(self.gates@, x as int));
            }
            if let Some(y) = self.gates@[g as int].fake_data().input_y {
                assert(fake_shape(self.gates@, y as int));
            }
            if self.gates@[g as int] is Gtz {
                let x = self.gates@[g as int].fake_data().input_x.unwrap() as int;
                assert(mask_ok(self.gates@, x));
                assert(x_clear@ == self.gates@[x].fake_data().lambda_clear@);
            }
        }
        let ghost old_nodes = self.gates@;
        match &mut self.gates[g] {
            FakeGateNode::Input(ig) => ig.do_run_offline(party),
            FakeGateNode::Add(a) => a.do_run_offline(&x_clear, &y_clear, &x_shr, &x_mac, &y_shr, &y_mac, party),
            FakeGateNode::Subtract(sg) => sg.do_run_offline(&x_clear, &x_shr, &x_mac, &y_clear, &y_shr, &y_mac),
            FakeGateNode::AddConstant(ac) => ac.do_run_offline(&x_clear, &x_shr, &x_mac),
            FakeGateNode::Output(og) => og.do_run_offline(),
            FakeGateNode::Multiply(m) => m.do_run_offline_base(&x_clear, &y_clear, party),
            FakeGateNode::MultiplyTrunc(m) => m.do_run_offline(&x_clear, &y_clear, party),
            FakeGateNode::ElemMultiply(m) => m.do_run_offline(&x_clear, &y_clear, party),
            FakeGateNode::Gtz(gz) => gz.do_run_offline(&x_clear, party),
        }
        proof {
            assert(self.gates@ == old_nodes.update(g as int, self.gates@[g as int]));
            Self::lemma_update_keeps_shape(old_nodes, g as int, self.gates@[g as int]);
            let d = self.gates@[g as int].fake_data();
            if let Some(x) = d.input_x {
                assert(x != g);
                assert(self.gates@[x as int] == old_nodes[x as int]);
                let xd = old_nodes[x as int].fake_data();
                assert(x_clear@ == xd.lambda_clear@);
                assert(forall|i: int| 0 <= i < N ==> (#[trigger] x_shr@[i])@ == xd.lambda_shr@[i]@ && x_mac@[i]@ == xd.lambda_shr_mac@[i]@);
            }
            if let Some(y) = d.input_y {
                assert(y != g);
                assert(self.gates@[y as int] == old_nodes[y as int]);
                let yd = old_nodes[y as int].fake_data();
                assert(y_clear@ == yd.lambda_clear@);
                assert(forall|i: int| 0 <= i < N ==> (#[trigger] y_shr@[i])@ == yd.lambda_shr@[i]@ && y_mac@[i]@ == yd.lambda_shr_mac@[i]@);
            }
            let ghost w = Seq::new(N as nat, |i: int| party.pending()[i].subrange(old(party).pending()[i].len() as int, party.pending()[i].len() as int));
            old(party).lemma_pending_len();
            party.lemma_pending_len();
            match self.gates@[g as int] {
                FakeGateNode::Input(ig) => {
                    let fd = self.gates@[g as int].fake_data();
                    assert forall|i: int| 0 <= i < N implies #[trigger] w[i] == (if i == ig.owner() { widened_bytes::<S>(fd.lambda_clear@) } else { Seq::<u8>::empty() }) + seq_to_bytes(fd.lambda_shr@[i]@) + seq_to_bytes(fd.lambda_shr_mac@[i]@) && party.pending()[i] == old(party).pending()[i] + w[i] by {
                        assert(party.pending()[i] =~= old(party).pending()[i] + ((if i == ig.owner() { widened_bytes::<S>(fd.lambda_clear@) } else { Seq::<u8>::empty() }) + seq_to_bytes(fd.lambda_shr@[i]@) + seq_to_bytes(fd.lambda_shr_mac@[i]@)));
                        lemma_appended(old(party).pending()[i], party.pending()[i], (if i == ig.owner() { widened_bytes::<S>(fd.lambda_clear@) } else { Seq::<u8>::empty() }) + seq_to_bytes(fd.lambda_shr@[i]@) + seq_to_bytes(fd.lambda_shr_mac@[i]@));
                    }
                    assert(fake_dealt(self.gates@, g as int, old(party).key(), w));
                },
                FakeGateNode::Gtz(_) => {
                    let fd = self.gates@[g as int].fake_data();
                    let bs = choose|bool_shares: Seq<Vec<S::ClearType>>|
                        #![trigger bool_shares.len()]
                        bool_shares.len() == N
                        && (forall|i: int| 0 <= i < N ==> (#[trigger] bool_shares[i])@.len() == fd.lambda_clear@.len())
                        && (forall|idx: int| 0 <= idx < fd.lambda_clear@.len() ==> xor_fold(#[trigger] column_of(bool_shares, idx)) == x_clear@[idx])
                        && forall|i: int| 0 <= i < N ==> #[trigger] party.pending()[i] == old(party).pending()[i]
                            + seq_to_bytes(fd.lambda_shr@[i]@) + seq_to_bytes(fd.lambda_shr_mac@[i]@) + seq_to_bytes(bool_shares[i]@);
                    assert forall|i: int| 0 <= i < N implies #[trigger] w[i] == seq_to_bytes(fd.lambda_shr@[i]@) + seq_to_bytes(fd.lambda_shr_mac@[i]@) + seq_to_bytes(bs[i]@) && party.pending()[i] == old(party).pending()[i] + w[i] by {
                        assert(party.pending()[i] =~= old(party).pending()[i] + (seq_to_bytes(fd.lambda_shr@[i]@) + seq_to_bytes(fd.lambda_shr_mac@[i]@) + seq_to_bytes(bs[i]@)));
                        lemma_appended(old(party).pending()[i], party.pending()[i], seq_to_bytes(fd.lambda_shr@[i]@) + seq_to_bytes(fd.lambda_shr_mac@[i]@) + seq_to_bytes(bs[i]@));
                    }
                    assert(fake_dealt(self.gates@, g as int, old(party).key(), w));
                },
                FakeGateNode::Add(_) => {
                    let fd = self.gates@[g as int].fake_data();
                    assert forall|i: int| 0 <= i < N implies #[trigger] w[i] == seq_to_bytes(fd.lambda_shr@[i]@) + seq_to_bytes(fd.lambda_shr_mac@[i]@) && party.pending()[i] == old(party).pending()[i] + w[i] by {
                        assert(party.pending()[i] =~= old(party).pending()[i] + (seq_to_bytes(fd.lambda_shr@[i]@) + seq_to_bytes(fd.lambda_shr_mac@[i]@)));
                        lemma_appended(old(party).pending()[i], party.pending()[i], seq_to_bytes(fd.lambda_shr@[i]@) + seq_to_bytes(fd.lambda_shr_mac@[i]@));
                    }
                    assert(fake_dealt(self.gates@, g as int, old(party).key(), w));
                },
                FakeGateNode::Subtract(_) => {
                    assert forall|i: int| 0 <= i < N implies #[trigger] w[i] == Seq::<u8>::empty() && party.pending()[i] == old(party).pending()[i] + w[i] by {
                        assert(party.pending()[i] =~= old(party).pending()[i] + (Seq::<u8>::empty()));
                        lemma_appended(old(party).pending()[i], party.pending()[i], Seq::<u8>::empty());
                    }
                    assert(fake_dealt(self.gates@, g as int, old(party).key(), w));
                },
                FakeGateNode::AddConstant(_) => {
                    assert forall|i: int| 0 <= i < N implies #[trigger] w[i] == Seq::<u8>::empty() && party.pending()[i] == old(party).pending()[i] + w[i] by {
                        assert(party.pending()[i] =~= old(party).pending()[i] + (Seq::<u8>::empty()));
                        lemma_appended(old(party).pending()[i], party.pending()[i], Seq::<u8>::empty());
                    }
                    assert(fake_dealt(self.gates@, g as int, old(party).key(), w));
                },
                FakeGateNode::Output(_) => {
                    assert forall|i: int| 0 <= i < N implies #[trigger] w[i] == Seq::<u8>::empty() && party.pending()[i] == old(party).pending()[i] + w[i] by {
                        assert(party.pending()[i] =~= old(party).pending()[i] + (Seq::<u8>::empty()));
                        lemma_appended(old(party).pending()[i], party.pending()[i], Seq::<u8>::empty());
                    }
                    assert(fake_dealt(self.gates@, g as int, old(party).key(), w));
                },
                FakeGateNode::Multiply(mm) => {
                    let fd = self.gates@[g as int].fake_data();
                    let dd = choose|dd: MultiplyDealing<S, N>|
                        #[trigger] matmul_dealing_ok(dd, x_clear@, y_clear@, fd.dim_row as int, mm.mid() as int, fd.dim_col as int, old(party).key())
                        && dd.lambda_clear == fd.lambda_clear
                        && dd.lambda.value_shares == fd.lambda_shr
                        && dd.lambda.mac_shares == fd.lambda_shr_mac
                        && forall|i: int| 0 <= i < N ==> #[trigger] party.pending()[i] == old(party).pending()[i] + dealing_bytes(dd, i);
                    assert forall|i: int| 0 <= i < N implies #[trigger] w[i] == dealing_bytes(dd, i) && party.pending()[i] == old(party).pending()[i] + w[i] by {
                        assert(party.pending()[i] =~= old(party).pending()[i] + (dealing_bytes(dd, i)));
                        lemma_appended(old(party).pending()[i], party.pending()[i], dealing_bytes(dd, i));
                    }
                    assert(fake_dealt(self.gates@, g as int, old(party).key(), w));
                },
                FakeGateNode::MultiplyTrunc(mt) => {
                    let fd = self.gates@[g as int].fake_data();
                    let dd = choose|dd: MultiplyDealing<S, N>|
                        #[trigger] matmul_dealing_ok(dd, x_clear@, y_clear@, fd.dim_row as int, mt.mid() as int, fd.dim_col as int, old(party).key())
                        && values(fd.lambda_clear@) == values(dd.lambda_clear@).map_values(|v: int| truncated(v))
                        && forall|i: int| 0 <= i < N ==> #[trigger] party.pending()[i] == old(party).pending()[i] + dealing_bytes(dd, i)
                            + seq_to_bytes(fd.lambda_shr@[i]@) + seq_to_bytes(fd.lambda_shr_mac@[i]@);
                    assert forall|i: int| 0 <= i < N implies #[trigger] w[i] == dealing_bytes(dd, i) + seq_to_bytes(fd.lambda_shr@[i]@) + seq_to_bytes(fd.lambda_shr_mac@[i]@) && party.pending()[i] == old(party).pending()[i] + w[i] by {
                        assert(party.pending()[i] =~= old(party).pending()[i] + (dealing_bytes(dd, i) + seq_to_bytes(fd.lambda_shr@[i]@) + seq_to_bytes(fd.lambda_shr_mac@[i]@)));
                        lemma_appended(old(party).pending()[i], party.pending()[i], dealing_bytes(dd, i) + seq_to_bytes(fd.lambda_shr@[i]@) + seq_to_bytes(fd.lambda_shr_mac@[i]@));
                    }
                    assert(fake_dealt(self.gates@, g as int, old(party).key(), w));
                },
                FakeGateNode::ElemMultiply(_) => {
                    let fd = self.gates@[g as int].fake_data();
                    let dd = choose|dd: MultiplyDealing<S, N>|
                        #[trigger] elem_dealing_ok(dd, x_clear@, y_clear@, fd.dim_row * fd.dim_col, old(party).key())
                        && dd.lambda_clear == fd.lambda_clear
                        && dd.lambda.value_shares == fd.lambda_shr
                        && dd.lambda.mac_shares == fd.lambda_shr_mac
                        && forall|i: int| 0 <= i < N ==> #[trigger] party.pending()[i] == old(party).pending()[i] + dealing_bytes(dd, i);
                    assert forall|i: int| 0 <= i < N implies #[trigger] w[i] == dealing_bytes(dd, i) && party.pending()[i] == old(party).pending()[i] + w[i] by {
                        assert(party.pending()[i] =~= old(party).pending()[i] + (dealing_bytes(dd, i)));
                        lemma_appended(old(party).pending()[i], party.pending()[i], dealing_bytes(dd, i));
                    }
                    assert(fake_dealt(self.gates@, g as int, old(party).key(), w));
                },
            }
            let n1 = old_nodes;
            let n2 = self.gates@;
            assert forall|j: int| 0 <= j < n1.len() implies #[trigger] same_links(n1[j], n2[j]) by {
                if j != g {
                    assert(n2[j] == n1[j]);
                }
            }
            assert forall|h: int| 0 <= h < n2.len() implies #[trigger] mask_ok(n2, h) by {
                lemma_mask_ready_frame(n1, n2, h);
                if h != g {
                    assert(mask_ok(n1, h));
                    assert(n2[h] == n1[h]);
                } else {
                    let d = n1[g as int].fake_data();
                    let fd = n2[g as int].fake_data();
                    assert(fake_dealt(n2, g as int, old(party).key(), w));
                    assert(fake_shape(n1, g as int));
                    if let Some(x) = d.input_x {
                        assert(mask_ok(n1, x as int));
                        assert(n2[x as int] == n1[x as int]);
                    }
                    if let Some(y) = d.input_y {
                        assert(mask_ok(n1, y as int));
                        assert(n2[y as int] == n1[y as int]);
                    }
                    if mask_ready(n2, h) {
                        assert(values(fd.lambda_clear@).len() == fd.lambda_clear@.len());
                        match n2[g as int] {
                            FakeGateNode::Add(_) => {
                                let xd = n2[d.input_x.unwrap() as int].fake_data();
                                let yd = n2[d.input_y.unwrap() as int].fake_data();
                                assert(values(xd.lambda_clear@).len() == xd.lambda_clear@.len());
                                assert(values(yd.lambda_clear@).len() == yd.lambda_clear@.len());
                            },
                            FakeGateNode::Subtract(_) => {
                                let xd = n2[d.input_x.unwrap() as int].fake_data();
                                let yd = n2[d.input_y.unwrap() as int].fake_data();
                                assert(values(xd.lambda_clear@).len() == xd.lambda_clear@.len());
                                assert(values(yd.lambda_clear@).len() == yd.lambda_clear@.len());
                            },
                            FakeGateNode::MultiplyTrunc(_) => {
                                let dd = choose|dd: MultiplyDealing<S, N>| #[trigger] matmul_dealing_ok(dd, n2[d.input_x.unwrap() as int].fake_data().lambda_clear@, n2[d.input_y.unwrap() as int].fake_data().lambda_clear@, fd.dim_row as int, n2[g as int]->MultiplyTrunc_0.mid() as int, fd.dim_col as int, old(party).key())
                                    && values(fd.lambda_clear@) == values(dd.lambda_clear@).map_values(|v: int| truncated(v));
                                assert(values(dd.lambda_clear@).len() == dd.lambda_clear@.len());
                            },
                            _ => {},
                        }
                    }
                }
            }
        }
    }

    /// Every gate of the order of evaluation deals its data, once.
    pub fn run_offline(&mut self, party: &mut FakeParty<S, N>)
        requires
            old(self).well_formed(),
            old(party).well_formed(),
            N >= 1,
            gtz_inputs_ready(old(self).nodes()),
        ensures
            final(self).well_formed(),
            final(self).endpoint_seq() == old(self).endpoint_seq(),
            final(self).nodes().len() == old(self).nodes().len(),
            fake_links_of(final(self).nodes()) == fake_links_of(old(self).nodes()),
            forall|h: int| 0 <= h < old(self).nodes().len() ==> #[trigger] fake_same_shape(old(self).nodes()[h], final(self).nodes()[h]),
            forall|k: int| 0 <= k < order_from(fake_links_of(old(self).nodes()), old(self).endpoint_seq()).len() ==>
                #[trigger] final(self).nodes()[order_from(fake_links_of(old(self).nodes()), old(self).endpoint_seq())[k] as int].fake_data().evaluated_offline,
            forall|h: int| 0 <= h < old(self).nodes().len() && !order_from(fake_links_of(old(self).nodes()), old(self).endpoint_seq()).contains(h as usize)
                ==> #[trigger] final(self).nodes()[h] == old(self).nodes()[h],
            final(party).well_formed(),
            final(party).key() == old(party).key(),
            final(party).key_share_values() == old(party).key_share_values(),
            exists|ws: Seq<Seq<Seq<u8>>>|
                #![trigger ws.len()]
                ws.len() == order_from(fake_links_of(old(self).nodes()), old(self).endpoint_seq()).len()
                && (forall|k: int| 0 <= k < ws.len() ==> (
                    if old(self).nodes()[order_from(fake_links_of(old(self).nodes()), old(self).endpoint_seq())[k] as int].fake_data().evaluated_offline {
                        #[trigger] ws[k] == nothing_written(N as int)
                    } else {
                        fake_dealt(final(self).nodes(), order_from(fake_links_of(old(self).nodes()), old(self).endpoint_seq())[k] as int, old(party).key(), ws[k])
                    }))
                && (forall|i: int| 0 <= i < N ==> #[trigger] final(party).pending()[i] == old(party).pending()[i] + written(ws, i)),
    {
        let order = self.evaluation_order();
        let ghost links = fake_links_of(self.gates@);
        let ghost mut ws: Seq<Seq<Seq<u8>>> = Seq::empty();
        let n = order.len();
        proof {
            old(party).lemma_pending_len();
            assert forall|i: int| 0 <= i < N implies #[trigger] party.pending()[i] == old(party).pending()[i] + written(ws, i) by {
                assert(party.pending()[i] =~= old(party).pending()[i] + Seq::<u8>::empty());
            }
            assert forall|j: int| 0 <= j < self.gates@.len() implies #[trigger] fake_same_shape(old(self).gates@[j], self.gates@[j]) by {
                assert(fake_shape(self.gates@, j));
            }
        }
        for k in 0..n
            invariant
                n == order@.len(),
                N >= 1,
                self.well_formed(),
                party.well_formed(),
                party.key() == old(party).key(),
                party.key_share_values() == old(party).key_share_values(),
                self.endpoint_seq() == old(self).endpoint_seq(),
                self.gates@.len() == old(self).gates@.len(),
                fake_links_of(self.gates@) == links,
                valid_order(links, order@),
                forall|j: int| 0 <= j < k ==> #[trigger] self.gates@[order@[j] as int].fake_data().evaluated_offline,
                forall|j: int| k <= j < n ==> #[trigger] self.gates@[order@[j] as int] == old(self).gates@[order@[j] as int],
                forall|h: int| 0 <= h < self.gates@.len() && !order@.contains(h as usize) ==> #[trigger] self.gates@[h] == old(self).gates@[h],
                ws.len() == k,
                forall|j: int| 0 <= j < k ==> (if old(self).gates@[order@[j] as int].fake_data().evaluated_offline {
                    #[trigger] ws[j] == nothing_written(N as int)
                } else {
                    fake_dealt(self.gates@, order@[j] as int, old(party).key(), ws[j])
                }),
                forall|i: int| 0 <= i < N ==> #[trigger] party.pending()[i] == old(party).pending()[i] + written(ws, i),
                forall|j: int| 0 <= j < self.gates@.len() ==> #[trigger] same_links(old(self).gates@[j], self.gates@[j]),
                forall|j: int| 0 <= j < self.gates@.len() ==> #[trigger] fake_same_shape(old(self).gates@[j], self.gates@[j]),
                gtz_inputs_ready(old(self).gates@),
        {
            let g = order[k];
            proof {
                assert(self.gates@[g as int] == old(self).gates@[g as int]);
                assert(inputs_before(links, order@, k as int));
                assert(fake_shape(self.gates@, g as int));
                let d = self.gates@[g as int].fake_data();
                if let Some(x) = d.input_x {
                    assert(links[g as int].0 == Some(x));
                    assert(order@.subrange(0, k as int).contains(x));
                    let i = choose|i: int| 0 <= i < k && order@.subrange(0, k as int)[i] == x;
                    assert(order@[i] == x);
                    assert(self.gates@[x as int].fake_data().evaluated_offline);
                }
                if let Some(y) = d.input_y {
                    assert(links[g as int].1 == Some(y));
                    assert(order@.subrange(0, k as int).contains(y));
                    let i = choose|i: int| 0 <= i < k && order@.subrange(0, k as int)[i] == y;
                    assert(order@[i] == y);
                    assert(self.gates@[y as int].fake_data().evaluated_offline);
                }
                if self.gates@[g as int] is Gtz {
                    assert(old(self).gates@[g as int] is Gtz);
                    let x = d.input_x.unwrap() as int;
                    assert(mask_ready(old(self).gates@, x));
                    assert(fake_shape(self.gates@, g as int));
                    assert forall|j: int| 0 <= j <= x implies #[trigger] same_links(old(self).gates@[j], self.gates@[j]) by {}
                    lemma_mask_ready_frame(old(self).gates@, self.gates@, x);
                    assert(mask_ok(self.gates@, x));
                }
            }
            let ghost before_ws = ws;
            if !self.gates[g].is_evaluated_offline() {
                let ghost before = self.gates@;
                let ghost before_pending = party.pending();
                self.run_gate_offline(g, party);
                proof {
                    let w = choose|w: Seq<Seq<u8>>| #[trigger] fake_dealt(self.gates@, g as int, old(party).key(), w)
                        && forall|i: int| 0 <= i < N ==> #[trigger] party.pending()[i] == before_pending[i] + w[i];
                    ws = ws.push(w);
                    assert forall|j: int| 0 <= j < self.gates@.len() implies #[trigger] same_links(old(self).gates@[j], self.gates@[j]) by {
                        assert(same_links(old(self).gates@[j], before[j]));
                        if j != g {
                            assert(self.gates@[j] == before[j]);
                        }
                    }
                    assert forall|j: int| 0 <= j < self.gates@.len() implies #[trigger] fake_same_shape(old(self).gates@[j], self.gates@[j]) by {
                        assert(fake_same_shape(old(self).gates@[j], before[j]));
                        if j != g {
                            assert(self.gates@[j] == before[j]);
                        } else {
                            assert(fake_same_shape(before[j], self.gates@[j]));
                        }
                    }
                    assert(fake_links_of(self.gates@) =~= links) by {
                        assert forall|h: int| 0 <= h < self.gates@.len() implies #[trigger] fake_links_of(self.gates@)[h] == links[h] by {
                            if h != g {
                                assert(self.gates@[h] == before[h]);
                            }
                        }
                    }
                    assert forall|j: int| k + 1 <= j < n implies #[trigger] self.gates@[order@[j] as int] == old(self).gates@[order@[j] as int] by {
                        assert(order@[j] != order@[k as int]);
                        assert(before[order@[j] as int] == old(self).gates@[order@[j] as int]);
                    }
                    assert forall|h: int| 0 <= h < self.gates@.len() && !order@.contains(h as usize) implies #[trigger] self.gates@[h] == old(self).gates@[h] by {
                        assert(order@[k as int] == g);
                        assert(h != g);
                        assert(before[h] == old(self).gates@[h]);
                    }
                    assert forall|j: int| 0 <= j < k + 1 implies (if old(self).gates@[order@[j] as int].fake_data().evaluated_offline {
                        #[trigger] ws[j] == nothing_written(N as int)
                    } else {
                        fake_dealt(self.gates@, order@[j] as int, old(party).key(), ws[j])
                    }) by {
                        if j < k {
                            assert(ws[j] == before_ws[j]);
                            if !old(self).gates@[order@[j] as int].fake_data().evaluated_offline {
                                let h = order@[j] as int;
                                assert(order@[j] != order@[k as int]);
                                assert(fake_shape(before, h));
                                assert(inputs_before(links, order@, j));
                                let d = before[h].fake_data();
                                if let Some(x) = d.input_x {
                                    assert(links[h].0 == Some(x));
                                    assert(order@.subrange(0, j).contains(x));
                                    let i = choose|i: int| 0 <= i < j && order@.subrange(0, j)[i] == x;
                                    assert(order@[i] == x);
                                    assert(x != g);
                                }
                                if let Some(y) = d.input_y {
                                    assert(links[h].1 == Some(y));
                                    assert(order@.subrange(0, j).contains(y));
                                    let i = choose|i: int| 0 <= i < j && order@.subrange(0, j)[i] == y;
                                    assert(order@[i] == y);
                                    assert(y != g);
                                }
                                Self::lemma_fake_dealt_frame(before, self.gates@, h, old(party).key(), ws[j]);
                            }
                        } else {
                            assert(ws[j] == w);
                        }
                    }
                    assert forall|i: int| 0 <= i < N implies #[trigger] party.pending()[i] == old(party).pending()[i] + written(ws, i) by {
                        assert(ws.drop_last() =~= before_ws);
                        assert(written(ws, i) == written(before_ws, i) + w[i]);
                        assert(party.pending()[i] =~= old(party).pending()[i] + written(ws, i));
                    }
                }
            } else {
                proof {
                    ws = ws.push(nothing_written(N as int));
                    assert forall|j: int| 0 <= j < k + 1 implies (if old(self).gates@[order@[j] as int].fake_data().evaluated_offline {
                        #[trigger] ws[j] == nothing_written(N as int)
                    } else {
                        fake_dealt(self.gates@, order@[j] as int, old(party).key(), ws[j])
                    }) by {
                        if j < k {
                            assert(ws[j] == before_ws[j]);
                        } else {
                            assert(self.gates@[order@[j] as int] == old(self).gates@[order@[j] as int]);
                        }
                    }
                    assert forall|i: int| 0 <= i < N implies #[trigger] party.pending()[i] == old(party).pending()[i] + written(ws, i) by {
                        assert(ws.drop_last() =~= before_ws);
                        assert(written(ws, i) == written(before_ws, i) + nothing_written(N as int)[i]);
                        assert(written(ws, i) =~= written(before_ws, i));
                    }
                }
            }
        }
        proof {
            assert(ws.len() == order@.len());
        }
    }

    /// What a gate was dealt only depends on it and its inputs.
    proof fn lemma_fake_dealt_frame(before: Seq<FakeGateNode<S, N>>, after: Seq<FakeGateNode<S, N>>, h: int, key: int, w: Seq<Seq<u8>>)
        requires
            0 <= h < before.len(),
            after.len() == before.len(),
            after[h] == before[h],
            fake_shape(before, h),
            before[h].fake_data().input_x matches Some(x) ==> after[x as int] == before[x as int],
            before[h].fake_data().input_y matches Some(y) ==> after[y as int] == before[y as int],
        ensures
            fake_dealt(after, h, key, w) == fake_dealt(before, h, key, w),
    {
    }

    /// A dim_row x dim_col input gate owned by party `owner_id`.
    pub fn input(&mut self, owner_id: usize, dim_row: usize, dim_col: usize) -> (r: usize)
        requires
            old(self).well_formed(),
            owner_id < N,
            size_ok(dim_row as int, dim_col as int),
        ensures
            final(self).well_formed(),
            r == old(self).nodes().len(),
            final(self).nodes().len() == old(self).nodes().len() + 1,
            forall|i: int| 0 <= i < r ==> #[trigger] final(self).nodes()[i] == old(self).nodes()[i],
            final(self).endpoint_seq() == old(self).endpoint_seq(),
            final(self).nodes()[r as int] matches FakeGateNode::Input(ig) && ig.owner() == owner_id,
            fake_fresh(final(self).nodes()[r as int].fake_data(), dim_row, dim_col, None, None),
    {
        let node = FakeGateNode::Input(FakeInputGate::new(dim_row, dim_col, owner_id));
        self.push_gate(node)
    }

    /// A gate adding two gates of the same dimensions.
    pub fn add(&mut self, input_x: usize, input_y: usize) -> (r: usize)
        requires
            old(self).well_formed(),
            input_x < old(self).nodes().len(),
            input_y < old(self).nodes().len(),
            old(self).nodes()[input_x as int].fake_data().dim_row == old(self).nodes()[input_y as int].fake_data().dim_row,
            old(self).nodes()[input_x as int].fake_data().dim_col == old(self).nodes()[input_y as int].fake_data().dim_col,
        ensures
            final(self).well_formed(),
            r == old(self).nodes().len(),
            final(self).nodes().len() == old(self).nodes().len() + 1,
            forall|i: int| 0 <= i < r ==> #[trigger] final(self).nodes()[i] == old(self).nodes()[i],
            final(self).endpoint_seq() == old(self).endpoint_seq(),
            final(self).nodes()[r as int] is Add,
            fake_fresh(final(self).nodes()[r as int].fake_data(), old(self).nodes()[input_x as int].fake_data().dim_row, old(self).nodes()[input_x as int].fake_data().dim_col, Some(input_x), Some(input_y)),
    {
        let dim_row = self.gates[input_x].dim_row();
        let dim_col = self.gates[input_x].dim_col();
        proof {
            assert(fake_shape(self.gates@, input_x as int));
        }
        let node = FakeGateNode::Add(FakeAddGate::new(input_x, input_y, dim_row, dim_col));
        self.push_gate(node)
    }

    /// A gate subtracting the second gate from the first.
    pub fn subtract(&mut self, input_x: usize, input_y: usize) -> (r: usize)
        requires
            old(self).well_formed(),
            input_x < old(self).nodes().len(),
            input_y < old(self).nodes().len(),
            old(self).nodes()[input_x as int].fake_data().dim_row == old(self).nodes()[input_y as int].fake_data().dim_row,
            old(self).nodes()[input_x as int].fake_data().dim_col == old(self).nodes()[input_y as int].fake_data().dim_col,
        ensures
            final(self).well_formed(),
            r == old(self).nodes().len(),
            final(self).nodes().len() == old(self).nodes().len() + 1,
            forall|i: int| 0 <= i < r ==> #[trigger] final(self).nodes()[i] == old(self).nodes()[i],
            final(self).endpoint_seq() == old(self).endpoint_seq(),
            final(self).nodes()[r as int] is Subtract,
            fake_fresh(final(self).nodes()[r as int].fake_data(), old(self).nodes()[input_x as int].fake_data().dim_row, old(self).nodes()[input_x as int].fake_data().dim_col, Some(input_x), Some(input_y)),
    {
        let dim_row = self.gates[input_x].dim_row();
        let dim_col = self.gates[input_x].dim_col();
        proof {
            assert(fake_shape(self.gates@, input_x as int));
        }
        let node = FakeGateNode::Subtract(FakeSubtractGate::new(input_x, input_y, dim_row, dim_col));
        self.push_gate(node)
    }

    /// A gate adding a public constant.
    pub fn add_constant(&mut self, input_x: usize, constant: S::ClearType) -> (r: usize)
        requires
            old(self).well_formed(),
            input_x < old(self).nodes().len(),
        ensures
            final(self).well_formed(),
            r == old(self).nodes().len(),
            final(self).nodes().len() == old(self).nodes().len() + 1,
            forall|i: int| 0 <= i < r ==> #[trigger] final(self).nodes()[i] == old(self).nodes()[i],
            final(self).endpoint_seq() == old(self).endpoint_seq(),
            final(self).nodes()[r as int] is AddConstant,
            fake_fresh(final(self).nodes()[r as int].fake_data(), old(self).nodes()[input_x as int].fake_data().dim_row, old(self).nodes()[input_x as int].fake_data().dim_col, Some(input_x), None),
    {
        let dim_row = self.gates[input_x].dim_row();
        let dim_col = self.gates[input_x].dim_col();
        proof {
            assert(fake_shape(self.gates@, input_x as int));
        }
        let node = FakeGateNode::AddConstant(FakeAddConstantGate::new(input_x, constant, dim_row, dim_col));
        self.push_gate(node)
    }

    /// A gate multiplying two matrices.
    pub fn multiply(&mut self, input_x: usize, input_y: usize) -> (r: usize)
        requires
            old(self).well_formed(),
            input_x < old(self).nodes().len(),
            input_y < old(self).nodes().len(),
            old(self).nodes()[input_x as int].fake_data().dim_col == old(self).nodes()[input_y as int].fake_data().dim_row,
            size_ok(old(self).nodes()[input_x as int].fake_data().dim_row as int, old(self).nodes()[input_y as int].fake_data().dim_col as int),
        ensures
            final(self).well_formed(),
            r == old(self).nodes().len(),
            final(self).nodes().len() == old(self).nodes().len() + 1,
            forall|i: int| 0 <= i < r ==> #[trigger] final(self).nodes()[i] == old(self).nodes()[i],
            final(self).endpoint_seq() == old(self).endpoint_seq(),
            final(self).nodes()[r as int] matches FakeGateNode::Multiply(m) && m.mid() == old(self).nodes()[input_x as int].fake_data().dim_col,
            fake_fresh(final(self).nodes()[r as int].fake_data(), old(self).nodes()[input_x as int].fake_data().dim_row, old(self).nodes()[input_y as int].fake_data().dim_col, Some(input_x), Some(input_y)),
    {
        let dim_row = self.gates[input_x].dim_row();
        let dim_mid = self.gates[input_x].dim_col();
        let dim_col = self.gates[input_y].dim_col();
        proof {
            assert(fake_shape(self.gates@, input_x as int));
            assert(fake_shape(self.gates@, input_y as int));
        }
        let node = FakeGateNode::Multiply(FakeMultiplyGate::new(input_x, input_y, dim_row, dim_mid, dim_col));
        self.push_gate(node)
    }

    /// A gate opening the output of a gate.
    pub fn output(&mut self, input_x: usize) -> (r: usize)
        requires
            old(self).well_formed(),
            input_x < old(self).nodes().len(),
        ensures
            final(self).well_formed(),
            r == old(self).nodes().len(),
            final(self).nodes().len() == old(self).nodes().len() + 1,
            forall|i: int| 0 <= i < r ==> #[trigger] final(self).nodes()[i] == old(self).nodes()[i],
            final(self).endpoint_seq() == old(self).endpoint_seq(),
            final(self).nodes()[r as int] is Output,
            fake_fresh(final(self).nodes()[r as int].fake_data(), old(self).nodes()[input_x as int].fake_data().dim_row, old(self).nodes()[input_x as int].fake_data().dim_col, Some(input_x), None),
    {
        let dim_row = self.gates[input_x].dim_row();
        let dim_col = self.gates[input_x].dim_col();
        proof {
            assert(fake_shape(self.gates@, input_x as int));
        }
        let node = FakeGateNode::Output(FakeOutputGate::new(input_x, dim_row, dim_col));
        self.push_gate(node)
    }

    /// A gate multiplying two fixed-point matrices.
    pub fn multiply_trunc(&mut self, input_x: usize, input_y: usize) -> (r: usize)
        requires
            old(self).well_formed(),
            input_x < old(self).nodes().len(),
            input_y < old(self).nodes().len(),
            old(self).nodes()[input_x as int].fake_data().dim_col == old(self).nodes()[input_y as int].fake_data().dim_row,
            size_ok(old(self).nodes()[input_x as int].fake_data().dim_row as int, old(self).nodes()[input_y as int].fake_data().dim_col as int),
        ensures
            final(self).well_formed(),
            r == old(self).nodes().len(),
            final(self).nodes().len() == old(self).nodes().len() + 1,
            forall|i: int| 0 <= i < r ==> #[trigger] final(self).nodes()[i] == old(self).nodes()[i],
            final(self).endpoint_seq() == old(self).endpoint_seq(),
            final(self).nodes()[r as int] matches FakeGateNode::MultiplyTrunc(m) && m.mid() == old(self).nodes()[input_x as int].fake_data().dim_col,
            fake_fresh(final(self).nodes()[r as int].fake_data(), old(self).nodes()[input_x as int].fake_data().dim_row, old(self).nodes()[input_y as int].fake_data().dim_col, Some(input_x), Some(input_y)),
    {
        let dim_row = self.gates[input_x].dim_row();
        let dim_mid = self.gates[input_x].dim_col();
        let dim_col = self.gates[input_y].dim_col();
        proof {
            assert(fake_shape(self.gates@, input_x as int));
            assert(fake_shape(self.gates@, input_y as int));
        }
        let node = FakeGateNode::MultiplyTrunc(FakeMultiplyTruncGate::new(input_x, input_y, dim_row, dim_mid, dim_col));
        self.push_gate(node)
    }

    /// A gate multiplying two gates entry by entry.
    pub fn element_multiply(&mut self, input_x: usize, input_y: usize) -> (r: usize)
        requires
            old(self).well_formed(),
            input_x < old(self).nodes().len(),
            input_y < old(self).nodes().len(),
            old(self).nodes()[input_x as int].fake_data().dim_row == old(self).nodes()[input_y as int].fake_data().dim_row,
            old(self).nodes()[input_x as int].fake_data().dim_col == old(self).nodes()[input_y as int].fake_data().dim_col,
        ensures
            final(self).well_formed(),
            r == old(self).nodes().len(),
            final(self).nodes().len() == old(self).nodes().len() + 1,
            forall|i: int| 0 <= i < r ==> #[trigger] final(self).nodes()[i] == old(self).nodes()[i],
            final(self).endpoint_seq() == old(self).endpoint_seq(),
            final(self).nodes()[r as int] is ElemMultiply,
            fake_fresh(final(self).nodes()[r as int].fake_data(), old(self).nodes()[input_x as int].fake_data().dim_row, old(self).nodes()[input_x as int].fake_data().dim_col, Some(input_x), Some(input_y)),
    {
        let dim_row = self.gates[input_x].dim_row();
        let dim_col = self.gates[input_x].dim_col();
        proof {
            assert(fake_shape(self.gates@, input_x as int));
        }
        let node = FakeGateNode::ElemMultiply(FakeElemMultiplyGate::new(input_x, input_y, dim_row, dim_col));
        self.push_gate(node)
    }

    /// A gate comparing every entry of a gate with zero.
    pub fn gtz(&mut self, input_x: usize) -> (r: usize)
        requires
            old(self).well_formed(),
            input_x < old(self).nodes().len(),
        ensures
            final(self).well_formed(),
            r == old(self).nodes().len(),
            final(self).nodes().len() == old(self).nodes().len() + 1,
            forall|i: int| 0 <= i < r ==> #[trigger] final(self).nodes()[i] == old(self).nodes()[i],
            final(self).endpoint_seq() == old(self).endpoint_seq(),
            final(self).nodes()[r as int] is Gtz,
            fake_fresh(final(self).nodes()[r as int].fake_data(), old(self).nodes()[input_x as int].fake_data().dim_row, old(self).nodes()[input_x as int].fake_data().dim_col, Some(input_x), None),
    {
        let dim_row = self.gates[input_x].dim_row();
        let dim_col = self.gates[input_x].dim_col();
        proof {
            assert(fake_shape(self.gates@, input_x as int));
        }
        let node = FakeGateNode::Gtz(FakeGtzGate::new(input_x, dim_row, dim_col));
        self.push_gate(node)
    }

}

} // verus!
