//! Circuits: gates held in an arena, each referring to its inputs by handle
//! (index); every input comes before this gate that reads it. The circuit
//! gives the order of evaluation, the preprocessing data each gate reads,
//! and drives each gate's online step; the party sends and receives.
use crate::add_constant_gate::AddConstantGate;
use crate::add_gate::AddGate;
use crate::elem_multiply_gate::ElemMultiplyGate;
use crate::gate::{bytes_of, fresh, pieces_match, size_ok, Action, Gate, GateData};
use crate::share::{copy_elems, decoded, modulus, seq_to_bytes, values};
use crate::ring::{seq_add, seq_add_const, seq_sub};
use crate::output_gate::output_mask;
use crate::fixed_point::truncated;
use vstd::arithmetic::power2::pow2;
use crate::share::ShareElement;
use crate::gtz_gate::{gtz_size_ok, GtzGate, GtzStage};
use crate::input_gate::InputGate;
use crate::multiply_gate::{multiply_layout, MultiplyGate};
use crate::multiply_trunc_gate::{multiply_trunc_layout, MultiplyTruncGate};
use crate::output_gate::OutputGate;
use crate::share::Spdz2kShare;
use crate::subtract_gate::SubtractGate;
use crate::timer::Timer;
use crate::order::{inputs_earlier, links_ok, lemma_order_valid, order_from, valid_order, visit_spec};
use vstd::prelude::*;

verus! {

/// A gate of a circuit.
pub enum GateNode<S: Spdz2kShare> {
    Input(InputGate<S>),
    Add(AddGate<S>),
    Subtract(SubtractGate<S>),
    AddConstant(AddConstantGate<S>),
    Multiply(MultiplyGate<S>),
    MultiplyTrunc(MultiplyTruncGate<S>),
    ElemMultiply(ElemMultiplyGate<S>),
    Gtz(GtzGate<S>),
    Output(OutputGate<S>),
}

impl<S: Spdz2kShare> Gate<S> for GateNode<S> {
    open spec fn gate_data(&self) -> GateData<S> {
        match self {
            GateNode::Input(g) => g.gate_data(),
            GateNode::Add(g) => g.gate_data(),
            GateNode::Subtract(g) => g.gate_data(),
            GateNode::AddConstant(g) => g.gate_data(),
            GateNode::Multiply(g) => g.gate_data(),
            GateNode::MultiplyTrunc(g) => g.gate_data(),
            GateNode::ElemMultiply(g) => g.gate_data(),
            GateNode::Gtz(g) => g.gate_data(),
            GateNode::Output(g) => g.gate_data(),
        }
    }

    open spec fn gate_name(&self) -> Seq<char> {
        match self {
            GateNode::Input(g) => g.gate_name(),
            GateNode::Add(g) => g.gate_name(),
            GateNode::Subtract(g) => g.gate_name(),
            GateNode::AddConstant(g) => g.gate_name(),
            GateNode::Multiply(g) => g.gate_name(),
            GateNode::MultiplyTrunc(g) => g.gate_name(),
            GateNode::ElemMultiply(g) => g.gate_name(),
            GateNode::Gtz(g) => g.gate_name(),
            GateNode::Output(g) => g.gate_name(),
        }
    }

    fn name(&self) -> &'static str {
        match self {
            GateNode::Input(g) => g.name(),
            GateNode::Add(g) => g.name(),
            GateNode::Subtract(g) => g.name(),
            GateNode::AddConstant(g) => g.name(),
            GateNode::Multiply(g) => g.name(),
            GateNode::MultiplyTrunc(g) => g.name(),
            GateNode::ElemMultiply(g) => g.name(),
            GateNode::Gtz(g) => g.name(),
            GateNode::Output(g) => g.name(),
        }
    }

    fn dim_row(&self) -> usize {
        match self {
            GateNode::Input(g) => g.dim_row(),
            GateNode::Add(g) => g.dim_row(),
            GateNode::Subtract(g) => g.dim_row(),
            GateNode::AddConstant(g) => g.dim_row(),
            GateNode::Multiply(g) => g.dim_row(),
            GateNode::MultiplyTrunc(g) => g.dim_row(),
            GateNode::ElemMultiply(g) => g.dim_row(),
            GateNode::Gtz(g) => g.dim_row(),
            GateNode::Output(g) => g.dim_row(),
        }
    }

    fn dim_col(&self) -> usize {
        match self {
            GateNode::Input(g) => g.dim_col(),
            GateNode::Add(g) => g.dim_col(),
            GateNode::Subtract(g) => g.dim_col(),
            GateNode::AddConstant(g) => g.dim_col(),
            GateNode::Multiply(g) => g.dim_col(),
            GateNode::MultiplyTrunc(g) => g.dim_col(),
            GateNode::ElemMultiply(g) => g.dim_col(),
            GateNode::Gtz(g) => g.dim_col(),
            GateNode::Output(g) => g.dim_col(),
        }
    }

    fn lambda_shr(&self) -> &Vec<S::SemiShrType> {
        match self {
            GateNode::Input(g) => g.lambda_shr(),
            GateNode::Add(g) => g.lambda_shr(),
            GateNode::Subtract(g) => g.lambda_shr(),
            GateNode::AddConstant(g) => g.lambda_shr(),
            GateNode::Multiply(g) => g.lambda_shr(),
            GateNode::MultiplyTrunc(g) => g.lambda_shr(),
            GateNode::ElemMultiply(g) => g.lambda_shr(),
            GateNode::Gtz(g) => g.lambda_shr(),
            GateNode::Output(g) => g.lambda_shr(),
        }
    }

    fn lambda_shr_mac(&self) -> &Vec<S::SemiShrType> {
        match self {
            GateNode::Input(g) => g.lambda_shr_mac(),
            GateNode::Add(g) => g.lambda_shr_mac(),
            GateNode::Subtract(g) => g.lambda_shr_mac(),
            GateNode::AddConstant(g) => g.lambda_shr_mac(),
            GateNode::Multiply(g) => g.lambda_shr_mac(),
            GateNode::MultiplyTrunc(g) => g.lambda_shr_mac(),
            GateNode::ElemMultiply(g) => g.lambda_shr_mac(),
            GateNode::Gtz(g) => g.lambda_shr_mac(),
            GateNode::Output(g) => g.lambda_shr_mac(),
        }
    }

    fn delta_clear(&self) -> &Vec<S::SemiShrType> {
        match self {
            GateNode::Input(g) => g.delta_clear(),
            GateNode::Add(g) => g.delta_clear(),
            GateNode::Subtract(g) => g.delta_clear(),
            GateNode::AddConstant(g) => g.delta_clear(),
            GateNode::Multiply(g) => g.delta_clear(),
            GateNode::MultiplyTrunc(g) => g.delta_clear(),
            GateNode::ElemMultiply(g) => g.delta_clear(),
            GateNode::Gtz(g) => g.delta_clear(),
            GateNode::Output(g) => g.delta_clear(),
        }
    }

    fn input_x(&self) -> Option<usize> {
        match self {
            GateNode::Input(g) => g.input_x(),
            GateNode::Add(g) => g.input_x(),
            GateNode::Subtract(g) => g.input_x(),
            GateNode::AddConstant(g) => g.input_x(),
            GateNode::Multiply(g) => g.input_x(),
            GateNode::MultiplyTrunc(g) => g.input_x(),
            GateNode::ElemMultiply(g) => g.input_x(),
            GateNode::Gtz(g) => g.input_x(),
            GateNode::Output(g) => g.input_x(),
        }
    }

    fn input_y(&self) -> Option<usize> {
        match self {
            GateNode::Input(g) => g.input_y(),
            GateNode::Add(g) => g.input_y(),
            GateNode::Subtract(g) => g.input_y(),
            GateNode::AddConstant(g) => g.input_y(),
            GateNode::Multiply(g) => g.input_y(),
            GateNode::MultiplyTrunc(g) => g.input_y(),
            GateNode::ElemMultiply(g) => g.input_y(),
            GateNode::Gtz(g) => g.input_y(),
            GateNode::Output(g) => g.input_y(),
        }
    }

    fn is_read_offline(&self) -> bool {
        match self {
            GateNode::Input(g) => g.is_read_offline(),
            GateNode::Add(g) => g.is_read_offline(),
            GateNode::Subtract(g) => g.is_read_offline(),
            GateNode::AddConstant(g) => g.is_read_offline(),
            GateNode::Multiply(g) => g.is_read_offline(),
            GateNode::MultiplyTrunc(g) => g.is_read_offline(),
            GateNode::ElemMultiply(g) => g.is_read_offline(),
            GateNode::Gtz(g) => g.is_read_offline(),
            GateNode::Output(g) => g.is_read_offline(),
        }
    }

    fn is_evaluated_online(&self) -> bool {
        match self {
            GateNode::Input(g) => g.is_evaluated_online(),
            GateNode::Add(g) => g.is_evaluated_online(),
            GateNode::Subtract(g) => g.is_evaluated_online(),
            GateNode::AddConstant(g) => g.is_evaluated_online(),
            GateNode::Multiply(g) => g.is_evaluated_online(),
            GateNode::MultiplyTrunc(g) => g.is_evaluated_online(),
            GateNode::ElemMultiply(g) => g.is_evaluated_online(),
            GateNode::Gtz(g) => g.is_evaluated_online(),
            GateNode::Output(g) => g.is_evaluated_online(),
        }
    }
}

/// The input gates of node i come before it and have its dimensions.
pub open spec fn two_inputs_same_dims<S: Spdz2kShare>(nodes: Seq<GateNode<S>>, i: int) -> bool {
    let d = nodes[i].gate_data();
    match (d.input_x, d.input_y) {
        (Some(x), Some(y)) => {
            &&& x < i
            &&& y < i
            &&& nodes[x as int].gate_data().dim_row == d.dim_row
            &&& nodes[x as int].gate_data().dim_col == d.dim_col
            &&& nodes[y as int].gate_data().dim_row == d.dim_row
            &&& nodes[y as int].gate_data().dim_col == d.dim_col
        },
        _ => false,
    }
}

/// Node i has one input gate, before it and with its dimensions.
pub open spec fn one_input_same_dims<S: Spdz2kShare>(nodes: Seq<GateNode<S>>, i: int) -> bool {
    let d = nodes[i].gate_data();
    match (d.input_x, d.input_y) {
        (Some(x), None) => {
            &&& x < i
            &&& nodes[x as int].gate_data().dim_row == d.dim_row
            &&& nodes[x as int].gate_data().dim_col == d.dim_col
        },
        _ => false,
    }
}

/// Node i multiplies a rows x mid input by a mid x cols input.
pub open spec fn product_shape<S: Spdz2kShare>(nodes: Seq<GateNode<S>>, i: int, mid: usize) -> bool {
    let d = nodes[i].gate_data();
    match (d.input_x, d.input_y) {
        (Some(x), Some(y)) => {
            &&& x < i
            &&& y < i
            &&& nodes[x as int].gate_data().dim_row == d.dim_row
            &&& nodes[x as int].gate_data().dim_col == mid
            &&& nodes[y as int].gate_data().dim_row == mid
            &&& nodes[y as int].gate_data().dim_col == d.dim_col
            &&& size_ok(d.dim_row as int, mid as int)
            &&& size_ok(mid as int, d.dim_col as int)
        },
        _ => false,
    }
}

/// Node i is a gate of its kind with its inputs before it.
pub open spec fn node_shape<S: Spdz2kShare>(nodes: Seq<GateNode<S>>, i: int) -> bool {
    let d = nodes[i].gate_data();
    &&& size_ok(d.dim_row as int, d.dim_col as int)
    &&& match nodes[i] {
        GateNode::Input(_) => d.input_x is None && d.input_y is None,
        GateNode::Add(_) => two_inputs_same_dims(nodes, i),
        GateNode::Subtract(_) => two_inputs_same_dims(nodes, i),
        GateNode::ElemMultiply(_) => two_inputs_same_dims(nodes, i),
        GateNode::AddConstant(_) => one_input_same_dims(nodes, i),
        GateNode::Output(_) => one_input_same_dims(nodes, i),
        GateNode::Gtz(gz) => one_input_same_dims(nodes, i) && gz.online_ok() && gtz_size_ok(d.dim_row as int, d.dim_col as int),
        GateNode::Multiply(m) => product_shape(nodes, i, m.mid()),
        GateNode::MultiplyTrunc(m) => product_shape(nodes, i, m.inner_spec().mid()),
    }
}

/// Two nodes of the same kind, dimensions and inputs.
pub open spec fn same_shape<S: Spdz2kShare>(a: GateNode<S>, b: GateNode<S>) -> bool {
    &&& a.gate_data().dim_row == b.gate_data().dim_row
    &&& a.gate_data().dim_col == b.gate_data().dim_col
    &&& a.gate_data().input_x == b.gate_data().input_x
    &&& a.gate_data().input_y == b.gate_data().input_y
    &&& match (a, b) {
        (GateNode::Input(_), GateNode::Input(_)) => true,
        (GateNode::Add(_), GateNode::Add(_)) => true,
        (GateNode::Subtract(_), GateNode::Subtract(_)) => true,
        (GateNode::ElemMultiply(_), GateNode::ElemMultiply(_)) => true,
        (GateNode::AddConstant(_), GateNode::AddConstant(_)) => true,
        (GateNode::Output(_), GateNode::Output(_)) => true,
        (GateNode::Gtz(_), GateNode::Gtz(g2)) => g2.online_ok(),
        (GateNode::Multiply(m1), GateNode::Multiply(m2)) => m1.mid() == m2.mid(),
        (GateNode::MultiplyTrunc(m1), GateNode::MultiplyTrunc(m2)) => m1.inner_spec().mid() == m2.inner_spec().mid(),
        _ => false,
    }
}

/// Replacing a node by one of the same shape keeps every node's shape.
pub proof fn lemma_update_keeps_shape<S: Spdz2kShare>(nodes: Seq<GateNode<S>>, g: int, new: GateNode<S>)
    requires
        0 <= g < nodes.len(),
        forall|i: int| 0 <= i < nodes.len() ==> #[trigger] node_shape(nodes, i),
        same_shape(nodes[g], new),
    ensures
        forall|i: int| 0 <= i < nodes.len() ==> #[trigger] node_shape(nodes.update(g, new), i),
{
    let n2 = nodes.update(g, new);
    assert forall|i: int| 0 <= i < nodes.len() implies #[trigger] node_shape(n2, i) by {
        assert(node_shape(nodes, i));
        assert forall|j: int| 0 <= j < nodes.len() implies #[trigger] n2[j].gate_data().dim_row == nodes[j].gate_data().dim_row && n2[j].gate_data().dim_col == nodes[j].gate_data().dim_col by {
        }
    }
}

/// Appending a node of the right shape keeps every node's shape.
pub proof fn lemma_push_keeps_shape<S: Spdz2kShare>(nodes: Seq<GateNode<S>>, new: GateNode<S>)
    requires
        forall|i: int| 0 <= i < nodes.len() ==> #[trigger] node_shape(nodes, i),
        node_shape(nodes.push(new), nodes.len() as int),
    ensures
        forall|i: int| 0 <= i < nodes.len() + 1 ==> #[trigger] node_shape(nodes.push(new), i),
{
    let n2 = nodes.push(new);
    assert forall|i: int| 0 <= i < nodes.len() + 1 implies #[trigger] node_shape(n2, i) by {
        if i < nodes.len() {
            assert(node_shape(nodes, i));
            assert(n2[i] == nodes[i]);
        }
    }
}

/// This gate has sent (or is to receive) its message and awaits the other
/// party's reply.
pub open spec fn awaits_reply<S: Spdz2kShare>(node: GateNode<S>) -> bool {
    let d = node.gate_data();
    let size = d.dim_row * d.dim_col;
    match node {
        GateNode::Input(_) => !d.evaluated_online,
        GateNode::Output(_) => !d.evaluated_online,
        GateNode::Multiply(m) => !d.evaluated_online && m.pending_seq().len() == size,
        GateNode::MultiplyTrunc(m) => !d.evaluated_online && m.inner_spec().pending_seq().len() == size,
        GateNode::ElemMultiply(m) => !d.evaluated_online && m.pending_seq().len() == size,
        GateNode::Gtz(gz) => gz.stage_spec() == GtzStage::Round || gz.stage_spec() == GtzStage::Bits || gz.stage_spec() == GtzStage::Opening,
        _ => false,
    }
}

/// The number of bytes of the reply a waiting gate takes.
pub open spec fn reply_len_of<S: Spdz2kShare>(node: GateNode<S>) -> int {
    let d = node.gate_data();
    match node {
        GateNode::Gtz(gz) => gz.reply_len(),
        _ => bytes_of::<S::SemiShrType>(d.dim_row * d.dim_col),
    }
}

/// The byte lengths of the pieces of preprocessing data a gate reads, in
/// order.
pub open spec fn layout_of<S: Spdz2kShare>(node: GateNode<S>, my_id: usize) -> Seq<usize> {
    let d = node.gate_data();
    let o = bytes_of::<S::SemiShrType>(d.dim_row * d.dim_col) as usize;
    match node {
        GateNode::Input(ig) => ig.layout_spec(my_id),
        GateNode::Add(_) => seq![o; 2],
        GateNode::Subtract(_) => Seq::<usize>::empty(),
        GateNode::AddConstant(_) => Seq::<usize>::empty(),
        GateNode::Output(_) => Seq::<usize>::empty(),
        GateNode::Multiply(m) => multiply_layout::<S::SemiShrType>(d.dim_row as int, m.mid() as int, d.dim_col as int),
        GateNode::MultiplyTrunc(m) => multiply_trunc_layout::<S::SemiShrType>(d.dim_row as int, m.inner_spec().mid() as int, d.dim_col as int),
        GateNode::ElemMultiply(_) => seq![o; 10],
        GateNode::Gtz(_) => seq![o, o, bytes_of::<S::ClearType>(d.dim_row * d.dim_col) as usize],
    }
}

/// Gate g can start its online step: its preprocessing data is read, its
/// inputs are evaluated, and the data it computes on has the sizes of the
/// gate.
pub open spec fn begin_ok<S: Spdz2kShare>(nodes: Seq<GateNode<S>>, g: int) -> bool {
    let d = nodes[g].gate_data();
    let size = d.dim_row * d.dim_col;
    &&& d.read_offline
    &&& !d.evaluated_online
    &&& (d.input_x matches Some(x) ==> nodes[x as int].gate_data().evaluated_online)
    &&& (d.input_y matches Some(y) ==> nodes[y as int].gate_data().evaluated_online)
    &&& match nodes[g] {
        GateNode::Multiply(m) => {
            &&& m.offline_ok()
            &&& nodes[d.input_x.unwrap() as int].gate_data().delta_clear@.len() == d.dim_row * m.mid()
            &&& nodes[d.input_y.unwrap() as int].gate_data().delta_clear@.len() == m.mid() * d.dim_col
        },
        GateNode::MultiplyTrunc(m) => {
            &&& m.inner_spec().offline_ok()
            &&& nodes[d.input_x.unwrap() as int].gate_data().delta_clear@.len() == d.dim_row * m.inner_spec().mid()
            &&& nodes[d.input_y.unwrap() as int].gate_data().delta_clear@.len() == m.inner_spec().mid() * d.dim_col
        },
        GateNode::ElemMultiply(m) => {
            &&& m.offline_ok()
            &&& nodes[d.input_x.unwrap() as int].gate_data().delta_clear@.len() == size
            &&& nodes[d.input_y.unwrap() as int].gate_data().delta_clear@.len() == size
        },
        GateNode::Output(_) => nodes[d.input_x.unwrap() as int].gate_data().lambda_shr@.len() == size,
        GateNode::Gtz(gz) => {
            &&& gz.bin_seq().len() == size
            &&& d.lambda_shr@.len() == size
            &&& gz.stage_spec() == GtzStage::Idle
            &&& nodes[d.input_x.unwrap() as int].gate_data().delta_clear@.len() == size
        },
        _ => true,
    }
}

/// The input handles of every gate.
pub open spec fn links_of<S: Spdz2kShare>(nodes: Seq<GateNode<S>>) -> Seq<(Option<usize>, Option<usize>)> {
    nodes.map_values(|n: GateNode<S>| (n.gate_data().input_x, n.gate_data().input_y))
}

/// Gates of the shapes of a circuit have their inputs before them.
pub proof fn lemma_shapes_links<S: Spdz2kShare>(nodes: Seq<GateNode<S>>)
    requires
        forall|i: int| 0 <= i < nodes.len() ==> #[trigger] node_shape(nodes, i),
    ensures
        links_ok(links_of(nodes)),
{
    assert forall|g: int| 0 <= g < nodes.len() implies #[trigger] inputs_earlier(links_of(nodes), g) by {
        assert(node_shape(nodes, g));
    }
}

/// What a gate holds after reading its pieces of preprocessing data, besides
/// the shares of its mask: the triple shares and corrections of products,
/// the truncated mask of a product with truncation, the boolean shares of a
/// comparison, the owner's mask of an input; a subtraction takes the
/// difference of its inputs' mask shares.
pub open spec fn offline_read<S: Spdz2kShare>(nodes: Seq<GateNode<S>>, g: int, new: GateNode<S>, pieces: Seq<Vec<u8>>, my_id: usize) -> bool {
    let d = nodes[g as int].gate_data();
    let fd = new.gate_data();
    let xd = nodes[d.input_x.unwrap() as int].gate_data();
    let yd = nodes[d.input_y.unwrap() as int].gate_data();
    let m = modulus::<S::SemiShrType>();
    match (nodes[g as int], new) {
        (GateNode::Subtract(_), _) => values(fd.lambda_shr@) == seq_sub(values(xd.lambda_shr@), values(yd.lambda_shr@), m)
            && values(fd.lambda_shr_mac@) == seq_sub(values(xd.lambda_shr_mac@), values(yd.lambda_shr_mac@), m),
        (GateNode::Output(_), _) => fd.lambda_shr == d.lambda_shr && fd.lambda_shr_mac == d.lambda_shr_mac,
        (GateNode::Input(ig1), GateNode::Input(ig2)) => ig2.input_seq() == ig1.input_seq()
            && (my_id == ig1.owner() ==> ig2.lambda_clear_seq() == decoded::<S::SemiShrType>(pieces[0]@))
            && (my_id != ig1.owner() ==> ig2.lambda_clear_seq() == ig1.lambda_clear_seq()),
        (GateNode::Multiply(_), GateNode::Multiply(m2)) => m2.a_seq() == decoded::<S::SemiShrType>(pieces[0]@)
            && m2.a_mac_seq() == decoded::<S::SemiShrType>(pieces[1]@)
            && m2.b_seq() == decoded::<S::SemiShrType>(pieces[2]@)
            && m2.b_mac_seq() == decoded::<S::SemiShrType>(pieces[3]@)
            && m2.c_seq() == decoded::<S::SemiShrType>(pieces[4]@)
            && m2.c_mac_seq() == decoded::<S::SemiShrType>(pieces[5]@)
            && m2.dx_seq() == decoded::<S::SemiShrType>(pieces[8]@)
            && m2.dy_seq() == decoded::<S::SemiShrType>(pieces[9]@),
        (GateNode::ElemMultiply(_), GateNode::ElemMultiply(m2)) => m2.a_seq() == decoded::<S::SemiShrType>(pieces[0]@)
            && m2.a_mac_seq() == decoded::<S::SemiShrType>(pieces[1]@)
            && m2.b_seq() == decoded::<S::SemiShrType>(pieces[2]@)
            && m2.b_mac_seq() == decoded::<S::SemiShrType>(pieces[3]@)
            && m2.c_seq() == decoded::<S::SemiShrType>(pieces[4]@)
            && m2.c_mac_seq() == decoded::<S::SemiShrType>(pieces[5]@)
            && m2.dx_seq() == decoded::<S::SemiShrType>(pieces[8]@)
            && m2.dy_seq() == decoded::<S::SemiShrType>(pieces[9]@),
        (GateNode::MultiplyTrunc(_), GateNode::MultiplyTrunc(m2)) => m2.inner_spec().a_seq() == decoded::<S::SemiShrType>(pieces[0]@)
            && m2.inner_spec().a_mac_seq() == decoded::<S::SemiShrType>(pieces[1]@)
            && m2.inner_spec().b_seq() == decoded::<S::SemiShrType>(pieces[2]@)
            && m2.inner_spec().b_mac_seq() == decoded::<S::SemiShrType>(pieces[3]@)
            && m2.inner_spec().c_seq() == decoded::<S::SemiShrType>(pieces[4]@)
            && m2.inner_spec().c_mac_seq() == decoded::<S::SemiShrType>(pieces[5]@)
            && m2.inner_spec().dx_seq() == decoded::<S::SemiShrType>(pieces[8]@)
            && m2.inner_spec().dy_seq() == decoded::<S::SemiShrType>(pieces[9]@)
            && m2.lambda_prime_seq() == decoded::<S::SemiShrType>(pieces[10]@)
            && m2.lambda_prime_mac_seq() == decoded::<S::SemiShrType>(pieces[11]@),
        (GateNode::Gtz(_), GateNode::Gtz(gz2)) => gz2.bin_seq() == decoded::<S::ClearType>(pieces[2]@),
        _ => true,
    }
}

pub struct Circuit<S: Spdz2kShare> {
    gates: Vec<GateNode<S>>,
    endpoints: Vec<usize>,
    timer: Timer,
    in_progress: Option<usize>,
}

impl<S: Spdz2kShare> Circuit<S> {
    /// This gates, by handle.
    pub closed spec fn nodes(&self) -> Seq<GateNode<S>> {
        self.gates@
    }

    /// This gates whose outputs are wanted.
    pub closed spec fn endpoint_seq(&self) -> Seq<usize> {
        self.endpoints@
    }

    /// This gate whose online step awaits the other party's reply.
    pub closed spec fn waiting(&self) -> Option<usize> {
        self.in_progress
    }

    pub closed spec fn timer_spec(&self) -> Timer {
        self.timer
    }

    /// Every gate has its inputs before it, in matching dimensions; the
    /// endpoints are gates; this gate in progress awaits a reply.
    pub closed spec fn well_formed(&self) -> bool {
        &&& forall|i: int| 0 <= i < self.gates@.len() ==> #[trigger] node_shape(self.gates@, i)
        &&& forall|k: int| 0 <= k < self.endpoints@.len() ==> #[trigger] self.endpoints@[k] < self.gates@.len()
        &&& match self.in_progress {
            Some(g) => g < self.gates@.len() && awaits_reply(self.gates@[g as int]),
            None => true,
        }
    }

    pub fn new() -> (r: Self)
        ensures
            r.well_formed(),
            r.nodes().len() == 0,
            r.endpoint_seq().len() == 0,
            r.waiting() is None,
    {
        Circuit { gates: Vec::new(), endpoints: Vec::new(), timer: Timer::new(), in_progress: None }
    }

    pub fn num_gates(&self) -> (r: usize)
        ensures
            r == self.nodes().len(),
    {
        self.gates.len()
    }

    /// The dimensions (rows, columns) of gate `g`.
    pub fn dims(&self, g: usize) -> (r: (usize, usize))
        requires
            g < self.nodes().len(),
        ensures
            r == (self.nodes()[g as int].gate_data().dim_row, self.nodes()[g as int].gate_data().dim_col),
    {
        (self.gates[g].dim_row(), self.gates[g].dim_col())
    }

    /// This gate with handle `g`.
    pub fn gate(&self, g: usize) -> (r: &GateNode<S>)
        requires
            g < self.nodes().len(),
        ensures
            *r == self.nodes()[g as int],
    {
        &self.gates[g]
    }

    /// Marks gate `g` as an endpoint: it is evaluated with its inputs.
    pub fn add_endpoint(&mut self, g: usize)
        requires
            old(self).well_formed(),
            g < old(self).nodes().len(),
        ensures
            final(self).well_formed(),
            final(self).nodes() == old(self).nodes(),
            final(self).endpoint_seq() == old(self).endpoint_seq().push(g),
            final(self).waiting() == old(self).waiting(),
    {
        self.endpoints.push(g);
    }

    fn push_gate(&mut self, node: GateNode<S>) -> (r: usize)
        requires
            old(self).well_formed(),
            node_shape(old(self).nodes().push(node), old(self).nodes().len() as int),
        ensures
            final(self).well_formed(),
            r == old(self).nodes().len(),
            final(self).nodes() == old(self).nodes().push(node),
            final(self).endpoint_seq() == old(self).endpoint_seq(),
            final(self).waiting() == old(self).waiting(),
    {
        proof {
            lemma_push_keeps_shape(self.gates@, node);
        }
        let r = self.gates.len();
        self.gates.push(node);
        r
    }

    /// A dim_row x dim_col input gate owned by party `owner_id`.
    pub fn input(&mut self, owner_id: usize, dim_row: usize, dim_col: usize) -> (r: usize)
        requires
            old(self).well_formed(),
            size_ok(dim_row as int, dim_col as int),
        ensures
            final(self).well_formed(),
            r == old(self).nodes().len(),
            final(self).nodes().len() == old(self).nodes().len() + 1,
            forall|i: int| 0 <= i < r ==> #[trigger] final(self).nodes()[i] == old(self).nodes()[i],
            final(self).nodes()[r as int] matches GateNode::Input(ig) && ig.owner() == owner_id,
            fresh(final(self).nodes()[r as int].gate_data(), dim_row, dim_col, None, None),
            final(self).endpoint_seq() == old(self).endpoint_seq(),
            final(self).waiting() == old(self).waiting(),
    {
        let node = GateNode::Input(InputGate::new(dim_row, dim_col, owner_id));
        self.push_gate(node)
    }

    /// A gate adding two gates of the same dimensions.
    pub fn add(&mut self, input_x: usize, input_y: usize) -> (r: usize)
        requires
            old(self).well_formed(),
            input_x < old(self).nodes().len(),
            input_y < old(self).nodes().len(),
            old(self).nodes()[input_x as int].gate_data().dim_row == old(self).nodes()[input_y as int].gate_data().dim_row,
            old(self).nodes()[input_x as int].gate_data().dim_col == old(self).nodes()[input_y as int].gate_data().dim_col,
        ensures
            final(self).well_formed(),
            r == old(self).nodes().len(),
            final(self).nodes().len() == old(self).nodes().len() + 1,
            forall|i: int| 0 <= i < r ==> #[trigger] final(self).nodes()[i] == old(self).nodes()[i],
            final(self).endpoint_seq() == old(self).endpoint_seq(),
            final(self).waiting() == old(self).waiting(),
            final(self).nodes()[r as int] is Add,
            fresh(final(self).nodes()[r as int].gate_data(), old(self).nodes()[input_x as int].gate_data().dim_row, old(self).nodes()[input_x as int].gate_data().dim_col, Some(input_x), Some(input_y)),
    {
        let (dim_row, dim_col) = self.dims(input_x);
        proof {
            assert(node_shape(self.gates@, input_x as int));
        }
        let node = GateNode::Add(AddGate::new(input_x, input_y, dim_row, dim_col));
        self.push_gate(node)
    }

    /// A gate subtracting the second gate from the first (same dimensions).
    pub fn subtract(&mut self, input_x: usize, input_y: usize) -> (r: usize)
        requires
            old(self).well_formed(),
            input_x < old(self).nodes().len(),
            input_y < old(self).nodes().len(),
            old(self).nodes()[input_x as int].gate_data().dim_row == old(self).nodes()[input_y as int].gate_data().dim_row,
            old(self).nodes()[input_x as int].gate_data().dim_col == old(self).nodes()[input_y as int].gate_data().dim_col,
        ensures
            final(self).well_formed(),
            r == old(self).nodes().len(),
            final(self).nodes().len() == old(self).nodes().len() + 1,
            forall|i: int| 0 <= i < r ==> #[trigger] final(self).nodes()[i] == old(self).nodes()[i],
            final(self).endpoint_seq() == old(self).endpoint_seq(),
            final(self).waiting() == old(self).waiting(),
            final(self).nodes()[r as int] is Subtract,
            fresh(final(self).nodes()[r as int].gate_data(), old(self).nodes()[input_x as int].gate_data().dim_row, old(self).nodes()[input_x as int].gate_data().dim_col, Some(input_x), Some(input_y)),
    {
        let (dim_row, dim_col) = self.dims(input_x);
        proof {
            assert(node_shape(self.gates@, input_x as int));
        }
        let node = GateNode::Subtract(SubtractGate::new(input_x, input_y, dim_row, dim_col));
        self.push_gate(node)
    }

    /// A gate adding a public constant to every entry.
    pub fn add_constant(&mut self, input_x: usize, constant: S::ClearType) -> (r: usize)
        requires
            old(self).well_formed(),
            input_x < old(self).nodes().len(),
        ensures
            final(self).well_formed(),
            r == old(self).nodes().len(),
            final(self).nodes().len() == old(self).nodes().len() + 1,
            forall|i: int| 0 <= i < r ==> #[trigger] final(self).nodes()[i] == old(self).nodes()[i],
            final(self).endpoint_seq() == old(self).endpoint_seq(),
            final(self).waiting() == old(self).waiting(),
            final(self).nodes()[r as int] is AddConstant,
            final(self).nodes()[r as int] matches GateNode::AddConstant(ac) && ac.constant_spec() == constant,
            fresh(final(self).nodes()[r as int].gate_data(), old(self).nodes()[input_x as int].gate_data().dim_row, old(self).nodes()[input_x as int].gate_data().dim_col, Some(input_x), None),
    {
        let (dim_row, dim_col) = self.dims(input_x);
        proof {
            assert(node_shape(self.gates@, input_x as int));
        }
        let node = GateNode::AddConstant(AddConstantGate::new(input_x, constant, dim_row, dim_col));
        self.push_gate(node)
    }

    /// A gate multiplying two matrices (the columns of the first are the rows of the second).
    pub fn multiply(&mut self, input_x: usize, input_y: usize) -> (r: usize)
        requires
            old(self).well_formed(),
            input_x < old(self).nodes().len(),
            input_y < old(self).nodes().len(),
            old(self).nodes()[input_x as int].gate_data().dim_col == old(self).nodes()[input_y as int].gate_data().dim_row,
            size_ok(old(self).nodes()[input_x as int].gate_data().dim_row as int, old(self).nodes()[input_y as int].gate_data().dim_col as int),
        ensures
            final(self).well_formed(),
            r == old(self).nodes().len(),
            final(self).nodes().len() == old(self).nodes().len() + 1,
            forall|i: int| 0 <= i < r ==> #[trigger] final(self).nodes()[i] == old(self).nodes()[i],
            final(self).endpoint_seq() == old(self).endpoint_seq(),
            final(self).waiting() == old(self).waiting(),
            final(self).nodes()[r as int] matches GateNode::Multiply(m) && m.mid() == old(self).nodes()[input_x as int].gate_data().dim_col,
            fresh(final(self).nodes()[r as int].gate_data(), old(self).nodes()[input_x as int].gate_data().dim_row, old(self).nodes()[input_y as int].gate_data().dim_col, Some(input_x), Some(input_y)),
    {
        let (dim_row, dim_mid) = self.dims(input_x);
        let (_, dim_col) = self.dims(input_y);
        proof {
            assert(node_shape(self.gates@, input_x as int));
            assert(node_shape(self.gates@, input_y as int));
        }
        let node = GateNode::Multiply(MultiplyGate::new(input_x, input_y, dim_row, dim_mid, dim_col));
        self.push_gate(node)
    }

    /// A gate opening the output of a gate to both parties.
    pub fn output(&mut self, input_x: usize) -> (r: usize)
        requires
            old(self).well_formed(),
            input_x < old(self).nodes().len(),
        ensures
            final(self).well_formed(),
            r == old(self).nodes().len(),
            final(self).nodes().len() == old(self).nodes().len() + 1,
            forall|i: int| 0 <= i < r ==> #[trigger] final(self).nodes()[i] == old(self).nodes()[i],
            final(self).endpoint_seq() == old(self).endpoint_seq(),
            final(self).waiting() == old(self).waiting(),
            final(self).nodes()[r as int] is Output,
            fresh(final(self).nodes()[r as int].gate_data(), old(self).nodes()[input_x as int].gate_data().dim_row, old(self).nodes()[input_x as int].gate_data().dim_col, Some(input_x), None),
    {
        let (dim_row, dim_col) = self.dims(input_x);
        proof {
            assert(node_shape(self.gates@, input_x as int));
        }
        let node = GateNode::Output(OutputGate::new(input_x, dim_row, dim_col));
        self.push_gate(node)
    }

    /// A gate multiplying two fixed-point matrices, truncating the product.
    pub fn multiply_trunc(&mut self, input_x: usize, input_y: usize) -> (r: usize)
        requires
            old(self).well_formed(),
            input_x < old(self).nodes().len(),
            input_y < old(self).nodes().len(),
            old(self).nodes()[input_x as int].gate_data().dim_col == old(self).nodes()[input_y as int].gate_data().dim_row,
            size_ok(old(self).nodes()[input_x as int].gate_data().dim_row as int, old(self).nodes()[input_y as int].gate_data().dim_col as int),
        ensures
            final(self).well_formed(),
            r == old(self).nodes().len(),
            final(self).nodes().len() == old(self).nodes().len() + 1,
            forall|i: int| 0 <= i < r ==> #[trigger] final(self).nodes()[i] == old(self).nodes()[i],
            final(self).endpoint_seq() == old(self).endpoint_seq(),
            final(self).waiting() == old(self).waiting(),
            final(self).nodes()[r as int] matches GateNode::MultiplyTrunc(m) && m.inner_spec().mid() == old(self).nodes()[input_x as int].gate_data().dim_col,
            fresh(final(self).nodes()[r as int].gate_data(), old(self).nodes()[input_x as int].gate_data().dim_row, old(self).nodes()[input_y as int].gate_data().dim_col, Some(input_x), Some(input_y)),
    {
        let (dim_row, dim_mid) = self.dims(input_x);
        let (_, dim_col) = self.dims(input_y);
        proof {
            assert(node_shape(self.gates@, input_x as int));
            assert(node_shape(self.gates@, input_y as int));
        }
        let node = GateNode::MultiplyTrunc(MultiplyTruncGate::new(input_x, input_y, dim_row, dim_mid, dim_col));
        self.push_gate(node)
    }

    /// A gate multiplying two gates of the same dimensions entry by entry.
    pub fn element_multiply(&mut self, input_x: usize, input_y: usize) -> (r: usize)
        requires
            old(self).well_formed(),
            input_x < old(self).nodes().len(),
            input_y < old(self).nodes().len(),
            old(self).nodes()[input_x as int].gate_data().dim_row == old(self).nodes()[input_y as int].gate_data().dim_row,
            old(self).nodes()[input_x as int].gate_data().dim_col == old(self).nodes()[input_y as int].gate_data().dim_col,
        ensures
            final(self).well_formed(),
            r == old(self).nodes().len(),
            final(self).nodes().len() == old(self).nodes().len() + 1,
            forall|i: int| 0 <= i < r ==> #[trigger] final(self).nodes()[i] == old(self).nodes()[i],
            final(self).endpoint_seq() == old(self).endpoint_seq(),
            final(self).waiting() == old(self).waiting(),
            final(self).nodes()[r as int] is ElemMultiply,
            fresh(final(self).nodes()[r as int].gate_data(), old(self).nodes()[input_x as int].gate_data().dim_row, old(self).nodes()[input_x as int].gate_data().dim_col, Some(input_x), Some(input_y)),
    {
        let (dim_row, dim_col) = self.dims(input_x);
        proof {
            assert(node_shape(self.gates@, input_x as int));
        }
        let node = GateNode::ElemMultiply(ElemMultiplyGate::new(input_x, input_y, dim_row, dim_col));
        self.push_gate(node)
    }

    /// A gate comparing every entry of a gate with zero.
    pub fn gtz(&mut self, input_x: usize) -> (r: usize)
        requires
            old(self).well_formed(),
            input_x < old(self).nodes().len(),
            gtz_size_ok(old(self).nodes()[input_x as int].gate_data().dim_row as int, old(self).nodes()[input_x as int].gate_data().dim_col as int),
        ensures
            final(self).well_formed(),
            r == old(self).nodes().len(),
            final(self).nodes().len() == old(self).nodes().len() + 1,
            forall|i: int| 0 <= i < r ==> #[trigger] final(self).nodes()[i] == old(self).nodes()[i],
            final(self).endpoint_seq() == old(self).endpoint_seq(),
            final(self).waiting() == old(self).waiting(),
            final(self).nodes()[r as int] is Gtz,
            fresh(final(self).nodes()[r as int].gate_data(), old(self).nodes()[input_x as int].gate_data().dim_row, old(self).nodes()[input_x as int].gate_data().dim_col, Some(input_x), None),
    {
        let (dim_row, dim_col) = self.dims(input_x);
        proof {
            assert(node_shape(self.gates@, input_x as int));
        }
        let node = GateNode::Gtz(GtzGate::new(input_x, dim_row, dim_col));
        self.push_gate(node)
    }

    fn visit(&self, g: usize, visited: &mut Vec<bool>, order: &mut Vec<usize>)
        requires
            self.well_formed(),
            g < self.nodes().len(),
            old(visited)@.len() == self.nodes().len(),
            forall|h: int| 0 <= h < self.nodes().len() ==> (#[trigger] old(visited)@[h] <==> old(order)@.contains(h as usize)),
        ensures
            final(order)@ == visit_spec(links_of(self.nodes()), g as int, old(order)@),
            final(visited)@.len() == self.nodes().len(),
            forall|h: int| 0 <= h < self.nodes().len() ==> (#[trigger] final(visited)@[h] <==> final(order)@.contains(h as usize)),
        decreases g,
    {
        if visited[g] {
            return;
        }
        proof {
            assert(node_shape(self.gates@, g as int));
        }
        let ghost o0 = order@;
        match self.gates[g].input_x() {
            Some(x) => self.visit(x, visited, order),
            None => {},
        }
        let ghost o1 = order@;
        match self.gates[g].input_y() {
            Some(y) => self.visit(y, visited, order),
            None => {},
        }
        let ghost o2 = order@;
        proof {
            assert(!o0.contains(g));
            assert(links_of(self.nodes())[g as int] == (self.gates@[g as int].gate_data().input_x, self.gates@[g as int].gate_data().input_y));
            assert(o2 == match self.gates@[g as int].gate_data().input_y {
                Some(y) => if y < g { visit_spec(links_of(self.nodes()), y as int, o1) } else { o1 },
                None => o1,
            });
            assert(o1 == match self.gates@[g as int].gate_data().input_x {
                Some(x) => if x < g { visit_spec(links_of(self.nodes()), x as int, o0) } else { o0 },
                None => o0,
            });
        }
        order.push(g);
        visited.set(g, true);
        proof {
            assert forall|h: int| 0 <= h < self.nodes().len() implies (#[trigger] visited@[h] <==> order@.contains(h as usize)) by {
                if h == g {
                    assert(order@[order@.len() - 1] == g);
                } else {
                    if o2.contains(h as usize) {
                        let k = choose|k: int| 0 <= k < o2.len() && o2[k] == h as usize;
                        assert(order@[k] == o2[k]);
                    }
                    assert(h < self.gates.len());
                    assert((h as usize) as int == h);
                    if order@.contains(h as usize) {
                        let k = choose|k: int| 0 <= k < order@.len() && order@[k] == h as usize;
                        if k == o2.len() {
                            assert(order@[k] == g);
                        }
                        assert(k < o2.len());
                        assert(o2[k] == order@[k]);
                    }
                }
            }
        }
    }

    /// The order in which this gates are evaluated, both when reading the
    /// preprocessing data and online: a depth-first walk from each endpoint
    /// in turn, each gate after its inputs (first input first), skipping the
    /// gates already walked.
    pub fn evaluation_order(&self) -> (r: Vec<usize>)
        requires
            self.well_formed(),
        ensures
            r@ == order_from(links_of(self.nodes()), self.endpoint_seq()),
            valid_order(links_of(self.nodes()), r@),
            forall|k: int| 0 <= k < self.endpoint_seq().len() ==> r@.contains(#[trigger] self.endpoint_seq()[k]),
    {
        proof {
            assert(self.gates@.len() == self.gates.len());
            lemma_shapes_links(self.gates@);
            lemma_order_valid(links_of(self.gates@), self.endpoints@);
        }
        let n = self.gates.len();
        let mut visited: Vec<bool> = Vec::with_capacity(n);
        for i in 0..n
            invariant
                visited@.len() == i,
                forall|h: int| 0 <= h < i ==> !(#[trigger] visited@[h]),
        {
            visited.push(false);
        }
        let mut order: Vec<usize> = Vec::new();
        let m = self.endpoints.len();
        for k in 0..m
            invariant
                self.well_formed(),
                m == self.endpoints@.len(),
                n == self.gates@.len(),
                visited@.len() == n,
                order@ == order_from(links_of(self.nodes()), self.endpoints@.subrange(0, k as int)),
                forall|h: int| 0 <= h < n ==> (#[trigger] visited@[h] <==> order@.contains(h as usize)),
        {
            let e = self.endpoints[k];
            proof {
                let sub = self.endpoints@.subrange(0, k as int + 1);
                assert(sub.drop_last() =~= self.endpoints@.subrange(0, k as int));
                assert(sub.last() == e);
            }
            self.visit(e, &mut visited, &mut order);
        }
        proof {
            assert(self.endpoints@.subrange(0, m as int) =~= self.endpoints@);
        }
        order
    }

    /// The byte lengths of the pieces of preprocessing data gate `g` reads,
    /// in order, for party `my_id`.
    pub fn offline_layout(&self, g: usize, my_id: usize) -> (r: Vec<usize>)
        requires
            self.well_formed(),
            g < self.nodes().len(),
        ensures
            r@ == layout_of(self.nodes()[g as int], my_id),
    {
        proof {
            assert(node_shape(self.gates@, g as int));
        }
        match &self.gates[g] {
            GateNode::Input(ig) => ig.offline_layout(my_id),
            GateNode::Add(a) => a.offline_layout(),
            GateNode::Subtract(_) => Vec::new(),
            GateNode::AddConstant(_) => Vec::new(),
            GateNode::Output(_) => Vec::new(),
            GateNode::Multiply(m) => m.offline_layout(),
            GateNode::MultiplyTrunc(m) => m.offline_layout(),
            GateNode::ElemMultiply(m) => m.offline_layout(),
            GateNode::Gtz(gz) => gz.offline_layout(),
        }
    }

    /// Gate `g` takes its pieces of preprocessing data (those of
    /// `offline_layout`); an addition of a constant takes the mask shares of
    /// its input.
    pub fn read_offline(&mut self, g: usize, pieces: &Vec<Vec<u8>>, my_id: usize)
        requires
            old(self).well_formed(),
            g < old(self).nodes().len(),
            pieces_match(pieces@, layout_of(old(self).nodes()[g as int], my_id)),
            old(self).waiting() is None,
        ensures
            final(self).well_formed(),
            final(self).endpoint_seq() == old(self).endpoint_seq(),
            final(self).waiting() is None,
            final(self).nodes().len() == old(self).nodes().len(),
            forall|h: int| 0 <= h < old(self).nodes().len() && h != g ==> #[trigger] final(self).nodes()[h] == old(self).nodes()[h],
            same_shape(old(self).nodes()[g as int], final(self).nodes()[g as int]),
            final(self).nodes()[g as int].gate_data().read_offline,
            final(self).nodes()[g as int].gate_data().delta_clear == old(self).nodes()[g as int].gate_data().delta_clear,
            final(self).nodes()[g as int].gate_data().evaluated_online == old(self).nodes()[g as int].gate_data().evaluated_online,
            final(self).nodes()[g as int].gate_data().lambda_shr@ == (match old(self).nodes()[g as int] {
                GateNode::Input(_) => decoded::<S::SemiShrType>(pieces@[pieces@.len() - 2]@),
                GateNode::Add(_) => decoded::<S::SemiShrType>(pieces@[0]@),
                GateNode::Multiply(_) => decoded::<S::SemiShrType>(pieces@[6]@),
                GateNode::MultiplyTrunc(_) => decoded::<S::SemiShrType>(pieces@[6]@),
                GateNode::ElemMultiply(_) => decoded::<S::SemiShrType>(pieces@[6]@),
                GateNode::Gtz(_) => decoded::<S::SemiShrType>(pieces@[0]@),
                GateNode::AddConstant(_) => old(self).nodes()[old(self).nodes()[g as int].gate_data().input_x.unwrap() as int].gate_data().lambda_shr@,
                _ => final(self).nodes()[g as int].gate_data().lambda_shr@,
            }),
            final(self).nodes()[g as int].gate_data().lambda_shr_mac@ == (match old(self).nodes()[g as int] {
                GateNode::Input(_) => decoded::<S::SemiShrType>(pieces@[pieces@.len() - 1]@),
                GateNode::Add(_) => decoded::<S::SemiShrType>(pieces@[1]@),
                GateNode::Multiply(_) => decoded::<S::SemiShrType>(pieces@[7]@),
                GateNode::MultiplyTrunc(_) => decoded::<S::SemiShrType>(pieces@[7]@),
                GateNode::ElemMultiply(_) => decoded::<S::SemiShrType>(pieces@[7]@),
                GateNode::Gtz(_) => decoded::<S::SemiShrType>(pieces@[1]@),
                GateNode::AddConstant(_) => old(self).nodes()[old(self).nodes()[g as int].gate_data().input_x.unwrap() as int].gate_data().lambda_shr_mac@,
                _ => final(self).nodes()[g as int].gate_data().lambda_shr_mac@,
            }),
            offline_read(old(self).nodes(), g as int, final(self).nodes()[g as int], pieces@, my_id),
    {
        proof {
            assert(node_shape(self.gates@, g as int));
        }
        let (lx, lx_mac) = match self.gates[g].input_x() {
            Some(x) => {
                proof {
                    assert(x < self.gates@.len()) by {
                        assert(node_shape(self.gates@, g as int));
                    }
                }
                (copy_elems(self.gates[x].lambda_shr().as_slice()), copy_elems(self.gates[x].lambda_shr_mac().as_slice()))
            },
            None => (Vec::new(), Vec::new()),
        };
        let (ly, ly_mac) = match self.gates[g].input_y() {
            Some(y) => {
                proof {
                    assert(y < self.gates@.len()) by {
                        assert(node_shape(self.gates@, g as int));
                    }
                }
                (copy_elems(self.gates[y].lambda_shr().as_slice()), copy_elems(self.gates[y].lambda_shr_mac().as_slice()))
            },
            None => (Vec::new(), Vec::new()),
        };
        let ghost old_nodes = self.gates@;
        match &mut self.gates[g] {
            GateNode::Input(ig) => ig.do_read_offline(pieces, my_id),
            GateNode::Add(a) => a.do_read_offline(pieces),
            GateNode::Subtract(sg) => sg.do_read_offline(&lx, &lx_mac, &ly, &ly_mac),
            GateNode::AddConstant(ac) => ac.do_read_offline(&lx, &lx_mac),
            GateNode::Output(og) => og.do_read_offline(),
            GateNode::Multiply(m) => m.do_read_offline_base(pieces),
            GateNode::MultiplyTrunc(m) => m.do_read_offline(pieces),
            GateNode::ElemMultiply(m) => m.do_read_offline(pieces),
            GateNode::Gtz(gz) => gz.do_read_offline(pieces),
        }
        proof {
            assert(self.gates@ == old_nodes.update(g as int, self.gates@[g as int]));
            lemma_update_keeps_shape(old_nodes, g as int, self.gates@[g as int]);
            let d = old_nodes[g as int].gate_data();
            if let Some(x) = d.input_x {
                assert(lx@ == old_nodes[x as int].gate_data().lambda_shr@);
                assert(lx_mac@ == old_nodes[x as int].gate_data().lambda_shr_mac@);
            }
            if let Some(y) = d.input_y {
                assert(ly@ == old_nodes[y as int].gate_data().lambda_shr@);
                assert(ly_mac@ == old_nodes[y as int].gate_data().lambda_shr_mac@);
            }
            assert(offline_read(old_nodes, g as int, self.gates@[g as int], pieces@, my_id)) by {
                match old_nodes[g as int] {
                GateNode::Subtract(_) => {
                    assert(self.gates@[g as int] is Subtract);
                    let xd = old_nodes[d.input_x.unwrap() as int].gate_data();
                    let yd = old_nodes[d.input_y.unwrap() as int].gate_data();
                    let fd = self.gates@[g as int].gate_data();
                    assert(values(fd.lambda_shr@) == seq_sub(values(xd.lambda_shr@), values(yd.lambda_shr@), modulus::<S::SemiShrType>()));
                    assert(offline_read(old_nodes, g as int, self.gates@[g as int], pieces@, my_id));
                },
                GateNode::Output(_) => { assert(self.gates@[g as int] is Output); assert(offline_read(old_nodes, g as int, self.gates@[g as int], pieces@, my_id)); },
                GateNode::Input(ig1) => {
                    assert(self.gates@[g as int] is Input);
                    let ig2 = self.gates@[g as int]->Input_0;
                    assert(ig2.input_seq() == ig1.input_seq());
                    assert(offline_read(old_nodes, g as int, self.gates@[g as int], pieces@, my_id));
                },
                GateNode::Multiply(_) => { assert(self.gates@[g as int] is Multiply); assert(offline_read(old_nodes, g as int, self.gates@[g as int], pieces@, my_id)); },
                GateNode::ElemMultiply(_) => { assert(self.gates@[g as int] is ElemMultiply); assert(offline_read(old_nodes, g as int, self.gates@[g as int], pieces@, my_id)); },
                GateNode::MultiplyTrunc(_) => { assert(self.gates@[g as int] is MultiplyTrunc); assert(offline_read(old_nodes, g as int, self.gates@[g as int], pieces@, my_id)); },
                GateNode::Gtz(_) => { assert(self.gates@[g as int] is Gtz); assert(offline_read(old_nodes, g as int, self.gates@[g as int], pieces@, my_id)); },
                _ => {},
            }
            }
        }
    }

    /// The owner of gate `g`, if it is an input gate.
    pub fn input_owner(&self, g: usize) -> (r: Option<usize>)
        requires
            g < self.nodes().len(),
        ensures
            r is Some <==> self.nodes()[g as int] is Input,
            self.nodes()[g as int] matches GateNode::Input(ig) ==> r == Some(ig.owner()),
    {
        match &self.gates[g] {
            GateNode::Input(ig) => Some(ig.owner_id()),
            _ => None,
        }
    }

    /// The owner of input gate `g` sets its input.
    pub fn set_input(&mut self, g: usize, input_value: &[S::ClearType], my_id: usize)
        requires
            old(self).well_formed(),
            g < old(self).nodes().len(),
            old(self).nodes()[g as int] matches GateNode::Input(ig) && ig.owner() == my_id,
            input_value@.len() == old(self).nodes()[g as int].gate_data().dim_row * old(self).nodes()[g as int].gate_data().dim_col,
        ensures
            final(self).well_formed(),
            final(self).endpoint_seq() == old(self).endpoint_seq(),
            final(self).waiting() == old(self).waiting(),
            final(self).nodes().len() == old(self).nodes().len(),
            forall|h: int| 0 <= h < old(self).nodes().len() && h != g ==> #[trigger] final(self).nodes()[h] == old(self).nodes()[h],
            same_shape(old(self).nodes()[g as int], final(self).nodes()[g as int]),
            final(self).nodes()[g as int].gate_data() == old(self).nodes()[g as int].gate_data(),
            final(self).nodes()[g as int] matches GateNode::Input(ig) && values(ig.input_seq()) == values(input_value@) && ig.owner() == my_id,
    {
        let ghost old_nodes = self.gates@;
        match &mut self.gates[g] {
            GateNode::Input(ig) => ig.set_input(input_value, my_id),
            _ => {},
        }
        proof {
            assert(self.gates@ == old_nodes.update(g as int, self.gates@[g as int]));
            lemma_update_keeps_shape(old_nodes, g as int, self.gates@[g as int]);
        }
    }

    /// The opened values of output gate `g` as clear values; nothing for
    /// another gate.
    pub fn get_clear(&self, g: usize) -> (r: Option<Vec<S::ClearType>>)
        requires
            g < self.nodes().len(),
        ensures
            r is Some <==> self.nodes()[g as int] is Output,
            self.nodes()[g as int] matches GateNode::Output(og) ==> {
                &&& r->0@.len() == og.output_seq().len()
                &&& forall|i: int| 0 <= i < og.output_seq().len() ==> #[trigger] r->0@[i].value() == og.output_seq()[i].value() % (pow2(S::K_BITS as nat) as int)
            },
    {
        match &self.gates[g] {
            GateNode::Output(og) => Some(og.get_clear()),
            _ => None,
        }
    }

    /// Whether gate `g` can start its online step.
    pub fn can_begin(&self, g: usize) -> (r: bool)
        requires
            self.well_formed(),
            g < self.nodes().len(),
        ensures
            r == begin_ok(self.nodes(), g as int),
    {
        proof {
            assert(node_shape(self.gates@, g as int));
        }
        let node = &self.gates[g];
        if !node.is_read_offline() || node.is_evaluated_online() {
            return false;
        }
        let mut inputs_done = true;
        match node.input_x() {
            Some(x) => {
                if !self.gates[x].is_evaluated_online() {
                    inputs_done = false;
                }
            },
            None => {},
        }
        match node.input_y() {
            Some(y) => {
                if !self.gates[y].is_evaluated_online() {
                    inputs_done = false;
                }
            },
            None => {},
        }
        if !inputs_done {
            return false;
        }
        let size = node.dim_row() * node.dim_col();
        match node {
            GateNode::Multiply(m) => {
                let x = node.input_x().unwrap();
                let y = node.input_y().unwrap();
                let mid = m.get_dim_mid();
                m.offline_ready() && self.gates[x].delta_clear().len() == node.dim_row() * mid
                    && self.gates[y].delta_clear().len() == mid * node.dim_col()
            },
            GateNode::MultiplyTrunc(m) => {
                let x = node.input_x().unwrap();
                let y = node.input_y().unwrap();
                let mid = m.get_dim_mid();
                m.offline_ready() && self.gates[x].delta_clear().len() == node.dim_row() * mid
                    && self.gates[y].delta_clear().len() == mid * node.dim_col()
            },
            GateNode::ElemMultiply(m) => {
                let x = node.input_x().unwrap();
                let y = node.input_y().unwrap();
                m.offline_ready() && self.gates[x].delta_clear().len() == size && self.gates[y].delta_clear().len() == size
            },
            GateNode::Gtz(gz) => {
                let x = node.input_x().unwrap();
                gz.start_ready() && self.gates[x].delta_clear().len() == size
            },
            GateNode::Output(_) => {
                let x = node.input_x().unwrap();
                self.gates[x].lambda_shr().len() == size
            },
            _ => true,
        }
    }

    /// Starts the online step of gate `g`: local gates are evaluated; an
    /// input gate's owner sends Delta and the other party is to receive it;
    /// the other gates send their first message and await the reply.
    pub fn online_begin(&mut self, g: usize, my_id: usize, global_key_shr: S::GlobalKeyType) -> (r: Action)
        requires
            old(self).well_formed(),
            g < old(self).nodes().len(),
            old(self).waiting() is None,
            begin_ok(old(self).nodes(), g as int),
        ensures
            final(self).well_formed(),
            final(self).endpoint_seq() == old(self).endpoint_seq(),
            final(self).nodes().len() == old(self).nodes().len(),
            forall|h: int| 0 <= h < old(self).nodes().len() && h != g ==> #[trigger] final(self).nodes()[h] == old(self).nodes()[h],
            same_shape(old(self).nodes()[g as int], final(self).nodes()[g as int]),
            final(self).nodes()[g as int].gate_data().read_offline,
            match r {
                Action::Done => final(self).waiting() is None && final(self).nodes()[g as int].gate_data().evaluated_online,
                Action::Send(_) => final(self).waiting() is None && final(self).nodes()[g as int].gate_data().evaluated_online,
                Action::Receive(n) => final(self).waiting() == Some(g) && n == reply_len_of(final(self).nodes()[g as int]),
                Action::Exchange(b) => final(self).waiting() == Some(g) && b@.len() == reply_len_of(final(self).nodes()[g as int]),
            },
            ({
                let d = old(self).nodes()[g as int].gate_data();
                let fd = final(self).nodes()[g as int].gate_data();
                let m = modulus::<S::SemiShrType>();
                match old(self).nodes()[g as int] {
                    GateNode::Add(_) => r is Done && values(fd.delta_clear@) == seq_add(
                        values(old(self).nodes()[d.input_x.unwrap() as int].gate_data().delta_clear@),
                        values(old(self).nodes()[d.input_y.unwrap() as int].gate_data().delta_clear@),
                        m,
                    ),
                    GateNode::Subtract(_) => r is Done && values(fd.delta_clear@) == seq_sub(
                        values(old(self).nodes()[d.input_x.unwrap() as int].gate_data().delta_clear@),
                        values(old(self).nodes()[d.input_y.unwrap() as int].gate_data().delta_clear@),
                        m,
                    ),
                    GateNode::AddConstant(ac) => r is Done && values(fd.delta_clear@) == seq_add_const(
                        values(old(self).nodes()[d.input_x.unwrap() as int].gate_data().delta_clear@),
                        ac.constant_spec().value(),
                        m,
                    ),
                    GateNode::Input(ig) => if ig.owner() == my_id {
                        r matches Action::Send(b) && b@ == seq_to_bytes(fd.delta_clear@)
                            && values(fd.delta_clear@) == seq_add(values(ig.input_seq()), values(ig.lambda_clear_seq()), m)
                    } else {
                        r matches Action::Receive(n) && n == bytes_of::<S::SemiShrType>(d.dim_row * d.dim_col)
                    },
                    GateNode::Output(_) => r matches Action::Exchange(b) && b@ == seq_to_bytes(old(self).nodes()[d.input_x.unwrap() as int].gate_data().lambda_shr@),
                    GateNode::Multiply(_) => r matches Action::Exchange(b) && (final(self).nodes()[g as int] matches GateNode::Multiply(m2) && b@ == seq_to_bytes(m2.pending_seq())),
                    GateNode::MultiplyTrunc(_) => r matches Action::Exchange(b) && (final(self).nodes()[g as int] matches GateNode::MultiplyTrunc(m2) && b@ == seq_to_bytes(m2.inner_spec().pending_seq())),
                    GateNode::ElemMultiply(_) => r matches Action::Exchange(b) && (final(self).nodes()[g as int] matches GateNode::ElemMultiply(m2) && b@ == seq_to_bytes(m2.pending_seq())),
                    GateNode::Gtz(gz1) => r matches Action::Exchange(b) && (final(self).nodes()[g as int] matches GateNode::Gtz(gz2)
                        && gz2.stage_spec() == GtzStage::Round
                        && gz2.started(old(self).nodes()[d.input_x.unwrap() as int].gate_data().delta_clear@, gz1.bin_seq(), my_id == 0)
                        && gz2.bin_seq() == gz1.bin_seq()
                        && gz2.triple() == gz1.triple()
                        && b@.len() >= gz2.sent().len()
                        && b@.subrange(0, gz2.sent().len() as int) == gz2.sent()),
                }
            }),
    {
        proof {
            assert(node_shape(self.gates@, g as int));
        }
        let dx: Vec<S::SemiShrType> = match self.gates[g].input_x() {
            Some(x) => copy_elems(self.gates[x].delta_clear().as_slice()),
            None => Vec::new(),
        };
        let dy: Vec<S::SemiShrType> = match self.gates[g].input_y() {
            Some(y) => copy_elems(self.gates[y].delta_clear().as_slice()),
            None => Vec::new(),
        };
        let lx: Vec<S::SemiShrType> = match self.gates[g].input_x() {
            Some(x) => copy_elems(self.gates[x].lambda_shr().as_slice()),
            None => Vec::new(),
        };
        let ghost old_nodes = self.gates@;
        let r = match &mut self.gates[g] {
            GateNode::Input(ig) => {
                if ig.owner_id() == my_id {
                    Action::Send(ig.online_message())
                } else {
                    Action::Receive(crate::gate::byte_len::<S::SemiShrType>(ig.dim_row() * ig.dim_col()))
                }
            },
            GateNode::Add(a) => {
                a.do_run_online(dx.as_slice(), dy.as_slice());
                Action::Done
            },
            GateNode::Subtract(sg) => {
                sg.do_run_online(dx.as_slice(), dy.as_slice());
                Action::Done
            },
            GateNode::AddConstant(ac) => {
                ac.do_run_online(dx.as_slice());
                Action::Done
            },
            GateNode::Output(og) => Action::Exchange(og.online_message(&lx)),
            GateNode::Multiply(m) => Action::Exchange(m.online_message(dx.as_slice(), dy.as_slice(), my_id, global_key_shr)),
            GateNode::MultiplyTrunc(m) => Action::Exchange(m.online_message(dx.as_slice(), dy.as_slice(), my_id, global_key_shr)),
            GateNode::ElemMultiply(m) => Action::Exchange(m.online_message(dx.as_slice(), dy.as_slice(), my_id, global_key_shr)),
            GateNode::Gtz(gz) => Action::Exchange(gz.online_start(dx.as_slice(), my_id)),
        };
        match r {
            Action::Receive(_) => self.in_progress = Some(g),
            Action::Exchange(_) => self.in_progress = Some(g),
            _ => {},
        }
        proof {
            assert(self.gates@ == old_nodes.update(g as int, self.gates@[g as int]));
            lemma_update_keeps_shape(old_nodes, g as int, self.gates@[g as int]);
            crate::share::lemma_decoded_roundtrip(self.gates@[g as int].gate_data().delta_clear@);
            crate::share::lemma_seq_to_bytes_len(lx@);
            match self.gates@[g as int] {
                GateNode::Multiply(m2) => crate::share::lemma_seq_to_bytes_len(m2.pending_seq()),
                GateNode::MultiplyTrunc(m2) => crate::share::lemma_seq_to_bytes_len(m2.inner_spec().pending_seq()),
                GateNode::ElemMultiply(m2) => crate::share::lemma_seq_to_bytes_len(m2.pending_seq()),
                _ => {},
            }
        }
        r
    }

    /// Continues the online step of the waiting gate `g` with the other
    /// party's reply: this gate is evaluated, or (a comparison gate) sends
    /// its next message and awaits the next reply.
    pub fn online_continue(&mut self, g: usize, received: &Vec<u8>, my_id: usize) -> (r: Action)
        requires
            old(self).well_formed(),
            old(self).waiting() == Some(g),
            received@.len() == reply_len_of(old(self).nodes()[g as int]),
        ensures
            final(self).well_formed(),
            final(self).endpoint_seq() == old(self).endpoint_seq(),
            final(self).nodes().len() == old(self).nodes().len(),
            forall|h: int| 0 <= h < old(self).nodes().len() && h != g ==> #[trigger] final(self).nodes()[h] == old(self).nodes()[h],
            same_shape(old(self).nodes()[g as int], final(self).nodes()[g as int]),
            final(self).nodes()[g as int].gate_data().read_offline == old(self).nodes()[g as int].gate_data().read_offline,
            r is Done || r is Exchange,
            r is Done ==> final(self).waiting() is None && final(self).nodes()[g as int].gate_data().evaluated_online,
            r matches Action::Exchange(b) ==> final(self).waiting() == Some(g) && b@.len() == reply_len_of(final(self).nodes()[g as int]) && old(self).nodes()[g as int] is Gtz,
            ({
                let d = old(self).nodes()[g as int].gate_data();
                let fd = final(self).nodes()[g as int].gate_data();
                let m = modulus::<S::SemiShrType>();
                let size = d.dim_row * d.dim_col;
                match old(self).nodes()[g as int] {
                    GateNode::Input(_) => fd.delta_clear@ == decoded::<S::SemiShrType>(received@),
                    GateNode::Output(_) => final(self).nodes()[g as int] matches GateNode::Output(og2) && values(og2.output_seq()) == seq_sub(
                        values(old(self).nodes()[d.input_x.unwrap() as int].gate_data().delta_clear@),
                        output_mask::<S>(decoded::<S::SemiShrType>(received@), old(self).nodes()[d.input_x.unwrap() as int].gate_data().lambda_shr@),
                        m,
                    ),
                    GateNode::Multiply(m1) => fd.delta_clear@.len() == size && forall|i: int| 0 <= i < size ==> #[trigger] fd.delta_clear@[i].value() == ((decoded::<S::SemiShrType>(received@)[i].value() + m1.pending_seq()[i].value()) % m) % (pow2(S::K_BITS as nat) as int),
                    GateNode::ElemMultiply(m1) => fd.delta_clear@.len() == size && forall|i: int| 0 <= i < size ==> #[trigger] fd.delta_clear@[i].value() == ((decoded::<S::SemiShrType>(received@)[i].value() + m1.pending_seq()[i].value()) % m) % (pow2(S::K_BITS as nat) as int),
                    GateNode::MultiplyTrunc(m1) => fd.delta_clear@.len() == size && forall|i: int| 0 <= i < size ==> #[trigger] fd.delta_clear@[i].value() == truncated(((decoded::<S::SemiShrType>(received@)[i].value() + m1.inner_spec().pending_seq()[i].value()) % m) % (pow2(S::K_BITS as nat) as int)),
                    GateNode::Gtz(gz1) => final(self).nodes()[g as int] matches GateNode::Gtz(gz2) && {
                        &&& gz1.stage_spec() == GtzStage::Round ==> gz1.round_step(&gz2, received@, my_id == 0)
                        &&& gz1.stage_spec() == GtzStage::Bits ==> gz1.bits_step(&gz2, received@, my_id == 0)
                        &&& gz1.stage_spec() == GtzStage::Opening ==> values(fd.delta_clear@) == seq_add(values(d.delta_clear@), values(decoded::<S::SemiShrType>(received@)), m)
                    },
                    _ => true,
                }
            }),
    {
        proof {
            assert(node_shape(self.gates@, g as int));
        }
        let (dx, lx): (Vec<S::SemiShrType>, Vec<S::SemiShrType>) = match self.gates[g].input_x() {
            Some(x) => (copy_elems(self.gates[x].delta_clear().as_slice()), copy_elems(self.gates[x].lambda_shr().as_slice())),
            None => (Vec::new(), Vec::new()),
        };
        let ghost old_nodes = self.gates@;
        let r = match &mut self.gates[g] {
            GateNode::Input(ig) => {
                ig.online_receive(received);
                Action::Done
            },
            GateNode::Output(og) => {
                og.online_finish(&lx, &dx, received);
                Action::Done
            },
            GateNode::Multiply(m) => {
                m.online_finish(received);
                Action::Done
            },
            GateNode::MultiplyTrunc(m) => {
                m.online_finish(received);
                Action::Done
            },
            GateNode::ElemMultiply(m) => {
                m.online_finish(received);
                Action::Done
            },
            GateNode::Gtz(gz) => match gz.online_continue(received, my_id) {
                Some(b) => Action::Exchange(b),
                None => Action::Done,
            },
            _ => Action::Done,
        };
        match r {
            Action::Done => self.in_progress = None,
            _ => {},
        }
        proof {
            assert(self.gates@ == old_nodes.update(g as int, self.gates@[g as int]));
            lemma_update_keeps_shape(old_nodes, g as int, self.gates@[g as int]);
        }
        r
    }

    /// Starts timing the online phase.
    pub fn start_benchmark(&mut self)
        requires
            old(self).well_formed(),
        ensures
            final(self).well_formed(),
            final(self).nodes() == old(self).nodes(),
            final(self).endpoint_seq() == old(self).endpoint_seq(),
            final(self).waiting() == old(self).waiting(),
            final(self).timer_spec().is_started(),
            final(self).timer_spec().stop_reading() == old(self).timer_spec().stop_reading(),
    {
        self.timer.start();
    }

    /// Stops timing the online phase.
    pub fn stop_benchmark(&mut self)
        requires
            old(self).well_formed(),
        ensures
            final(self).well_formed(),
            final(self).nodes() == old(self).nodes(),
            final(self).endpoint_seq() == old(self).endpoint_seq(),
            final(self).waiting() == old(self).waiting(),
            final(self).timer_spec().is_stopped(),
            final(self).timer_spec().is_started() == old(self).timer_spec().is_started(),
            final(self).timer_spec().start_reading() == old(self).timer_spec().start_reading(),
    {
        self.timer.stop();
    }

    /// The milliseconds of the timed online phase; 0 until started and stopped.
    pub fn elapsed_ms(&self) -> (r: u128)
        ensures
            !(self.timer_spec().is_started() && self.timer_spec().is_stopped()) ==> r == 0,
    {
        self.timer.elapsed_ms()
    }
}

} // verus!
