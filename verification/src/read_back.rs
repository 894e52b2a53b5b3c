//! What each party reads back of the dealer's files: a circuit built gate for
//! gate like the dealer's takes, gate by gate, exactly the bytes the dealer
//! wrote for that gate, and its mask shares decode to the dealt ones.
use crate::circuit::{layout_of, links_of, GateNode};
use crate::fake_circuit::{fake_dealt, fake_links_of, fake_shape, FakeGateNode};
use crate::fake_gate::FakeGate;
use crate::gate::Gate;
use crate::order::{inputs_earlier, lemma_order_valid, order_from};
use crate::share::{decoded, Spdz2kShare};
use vstd::prelude::*;

verus! {

/// A reader's gate built like the dealer's: same kind, dimensions and
/// inputs, the same owner for an input, the same inner dimension for a
/// product.
pub open spec fn gates_match<S: Spdz2kShare, const N: usize>(f: FakeGateNode<S, N>, c: GateNode<S>) -> bool {
    let fd = f.fake_data();
    let cd = c.gate_data();
    &&& fd.dim_row == cd.dim_row
    &&& fd.dim_col == cd.dim_col
    &&& fd.input_x == cd.input_x
    &&& fd.input_y == cd.input_y
    &&& match (f, c) {
        (FakeGateNode::Input(a), GateNode::Input(b)) => a.owner() == b.owner(),
        (FakeGateNode::Add(_), GateNode::Add(_)) => true,
        (FakeGateNode::Subtract(_), GateNode::Subtract(_)) => true,
        (FakeGateNode::AddConstant(_), GateNode::AddConstant(_)) => true,
        (FakeGateNode::Output(_), GateNode::Output(_)) => true,
        (FakeGateNode::ElemMultiply(_), GateNode::ElemMultiply(_)) => true,
        (FakeGateNode::Gtz(_), GateNode::Gtz(_)) => true,
        (FakeGateNode::Multiply(a), GateNode::Multiply(b)) => a.mid() == b.mid(),
        (FakeGateNode::MultiplyTrunc(a), GateNode::MultiplyTrunc(b)) => a.mid() == b.inner_spec().mid(),
        _ => false,
    }
}

/// The masks that gate g's dealing uses have the sizes of g itself: its
/// inputs' clear masks for a product, and its own shares for a sum.
pub open spec fn dealt_sizes<S: Spdz2kShare, const N: usize>(nodes: Seq<FakeGateNode<S, N>>, g: int) -> bool {
    let d = nodes[g].fake_data();
    let x = nodes[d.input_x.unwrap() as int].fake_data();
    let y = nodes[d.input_y.unwrap() as int].fake_data();
    match nodes[g] {
        FakeGateNode::Multiply(_) | FakeGateNode::MultiplyTrunc(_) => x.lambda_clear@.len() == x.dim_row * x.dim_col
            && y.lambda_clear@.len() == y.dim_row * y.dim_col,
        FakeGateNode::ElemMultiply(_) => x.lambda_clear@.len() == d.dim_row * d.dim_col
            && y.lambda_clear@.len() == d.dim_row * d.dim_col,
        FakeGateNode::Add(_) => forall|i: int| 0 <= i < N ==> (#[trigger] d.lambda_shr@[i])@.len() == d.dim_row * d.dim_col
            && d.lambda_shr_mac@[i]@.len() == d.dim_row * d.dim_col,
        _ => true,
    }
}

/// `p` cuts `bytes` into consecutive pieces of the lengths of `layout`.
pub open spec fn split_into(bytes: Seq<u8>, layout: Seq<usize>, p: Seq<Seq<u8>>) -> bool {
    &&& p.len() == layout.len()
    &&& forall|k: int| 0 <= k < layout.len() ==> #[trigger] p[k].len() == layout[k]
    &&& p.flatten_alt() == bytes
}

/// The piece that holds a reader's gate's own shares of its mask (the MAC
/// shares are the next piece): for a product with truncation, the shares of
/// the truncated mask it swaps in online. None for the gates that read no
/// shares.
pub open spec fn mask_piece<S: Spdz2kShare>(c: GateNode<S>, my_id: usize) -> Option<int> {
    match c {
        GateNode::Input(_) => Some(layout_of(c, my_id).len() - 2),
        GateNode::Add(_) => Some(0),
        GateNode::Multiply(_) => Some(6),
        GateNode::ElemMultiply(_) => Some(6),
        GateNode::MultiplyTrunc(_) => Some(10),
        GateNode::Gtz(_) => Some(0),
        _ => None,
    }
}

/// Party i reads back gate g's dealing: its layout cuts the bytes written
/// for it, and the mask pieces decode to its shares of the mask.
pub open spec fn read_back<S: Spdz2kShare, const N: usize>(f: FakeGateNode<S, N>, c: GateNode<S>, w: Seq<u8>, i: int) -> bool {
    exists|p: Seq<Seq<u8>>|
        #[trigger] split_into(w, layout_of(c, i as usize), p)
        && (mask_piece(c, i as usize) matches Some(k) ==>
            decoded::<S::SemiShrType>(p[k]) == f.fake_data().lambda_shr@[i]@
            && decoded::<S::SemiShrType>(p[k + 1]) == f.fake_data().lambda_shr_mac@[i]@)
}

/// Law (a gate's preprocessing data, read back): what the dealer writes for
/// party i for a gate is cut by the layout of the party's gate of the same
/// kind and sizes into exactly its pieces, and the party's shares of the
/// mask decode from them.
pub proof fn lemma_gate_read_back<S: Spdz2kShare, const N: usize>(
    nodes: Seq<FakeGateNode<S, N>>,
    g: int,
    key: int,
    w: Seq<Seq<u8>>,
    c: GateNode<S>,
    i: int,
)
    requires
        0 <= g < nodes.len(),
        0 <= i < N,
        fake_shape(nodes, g),
        fake_dealt(nodes, g, key, w),
        dealt_sizes(nodes, g),
        gates_match(nodes[g], c),
    ensures
        read_back(nodes[g], c, w[i], i),
{
    let d = nodes[g].fake_data();
    let rows = d.dim_row as int;
    let cols = d.dim_col as int;
    assert(0 <= rows * cols) by (nonlinear_arith)
        requires
            0 <= rows,
            0 <= cols,
    ;
    match nodes[g] {
        FakeGateNode::Input(fi) => {
            let ig = c->Input_0;
            crate::input_gate::lemma_input_file_agrees(ig, d, key, i as usize);
            let p = crate::input_gate::input_pieces(d, ig.owner(), i);
            assert(w[i] == p.flatten_alt());
            assert(split_into(w[i], layout_of(c, i as usize), p));
        },
        FakeGateNode::Add(_) => {
            assert(d.lambda_shr@[i]@.len() == rows * cols);
            crate::add_gate::lemma_add_file_agrees(rows, cols, d, i);
            let p = seq![crate::share::seq_to_bytes(d.lambda_shr@[i]@), crate::share::seq_to_bytes(d.lambda_shr_mac@[i]@)];
            assert(split_into(w[i], layout_of(c, i as usize), p));
        },
        FakeGateNode::Subtract(_) | FakeGateNode::AddConstant(_) | FakeGateNode::Output(_) => {
            let p = Seq::<Seq<u8>>::empty();
            assert(w[i] == Seq::<u8>::empty());
            assert(p.flatten_alt() =~= Seq::<u8>::empty());
            assert(split_into(w[i], layout_of(c, i as usize), p));
        },
        FakeGateNode::Gtz(_) => {
            let bs = choose|bool_shares: Seq<Vec<S::ClearType>>|
                #![trigger bool_shares.len()]
                bool_shares.len() == N
                && (forall|i: int| 0 <= i < N ==> (#[trigger] bool_shares[i])@.len() == d.lambda_clear@.len())
                && (forall|idx: int| 0 <= idx < d.lambda_clear@.len() ==> crate::fake_gtz_gate::xor_fold(#[trigger] crate::fake_gtz_gate::column_of(bool_shares, idx)) == nodes[d.input_x.unwrap() as int].fake_data().lambda_clear@[idx])
                && forall|i: int| 0 <= i < N ==> #[trigger] w[i] == crate::share::seq_to_bytes(d.lambda_shr@[i]@) + crate::share::seq_to_bytes(d.lambda_shr_mac@[i]@) + crate::share::seq_to_bytes(bool_shares[i]@);
            assert(bs[i]@.len() == rows * cols);
            crate::gtz_gate::lemma_gtz_file_agrees(rows, cols, d, bs, key, i);
            let p = crate::gtz_gate::gtz_pieces(d, bs, i);
            assert(split_into(w[i], layout_of(c, i as usize), p));
        },
        FakeGateNode::Multiply(m) => {
            let x = nodes[d.input_x.unwrap() as int].fake_data();
            let y = nodes[d.input_y.unwrap() as int].fake_data();
            let mid = m.mid() as int;
            let dd = choose|dd: crate::fake_multiply_gate::MultiplyDealing<S, N>|
                #[trigger] crate::fake_multiply_gate::matmul_dealing_ok(dd, x.lambda_clear@, y.lambda_clear@, rows, mid, cols, key)
                && dd.lambda_clear == d.lambda_clear
                && dd.lambda.value_shares == d.lambda_shr
                && dd.lambda.mac_shares == d.lambda_shr_mac
                && forall|i: int| 0 <= i < N ==> #[trigger] w[i] == crate::fake_multiply_gate::dealing_bytes(dd, i);
            crate::multiply_gate::lemma_product_file_agrees(dd, x.lambda_clear@, y.lambda_clear@, rows, mid, cols, key, i);
            let p = crate::multiply_gate::dealing_pieces(dd, i);
            assert(split_into(w[i], layout_of(c, i as usize), p));
        },
        FakeGateNode::MultiplyTrunc(m) => {
            let x = nodes[d.input_x.unwrap() as int].fake_data();
            let y = nodes[d.input_y.unwrap() as int].fake_data();
            let mid = m.mid() as int;
            let dd = choose|dd: crate::fake_multiply_gate::MultiplyDealing<S, N>|
                #[trigger] crate::fake_multiply_gate::matmul_dealing_ok(dd, x.lambda_clear@, y.lambda_clear@, rows, mid, cols, key)
                && crate::share::values(d.lambda_clear@) == crate::share::values(dd.lambda_clear@).map_values(|v: int| crate::fixed_point::truncated(v))
                && forall|i: int| 0 <= i < N ==> #[trigger] w[i] == crate::fake_multiply_gate::dealing_bytes(dd, i) + crate::share::seq_to_bytes(d.lambda_shr@[i]@) + crate::share::seq_to_bytes(d.lambda_shr_mac@[i]@);
            let tc = crate::share::values(d.lambda_clear@);
            assert(tc.len() == rows * cols);
            crate::multiply_trunc_gate::lemma_trunc_file_agrees(dd, x.lambda_clear@, y.lambda_clear@, rows, mid, cols, key, d.lambda_shr@, d.lambda_shr_mac@, tc, i);
            let p = crate::multiply_trunc_gate::trunc_pieces(dd, d.lambda_shr@, d.lambda_shr_mac@, i);
            assert(p[10] == crate::share::seq_to_bytes(d.lambda_shr@[i]@));
            assert(p[11] == crate::share::seq_to_bytes(d.lambda_shr_mac@[i]@));
            assert(split_into(w[i], layout_of(c, i as usize), p));
        },
        FakeGateNode::ElemMultiply(_) => {
            let x = nodes[d.input_x.unwrap() as int].fake_data();
            let y = nodes[d.input_y.unwrap() as int].fake_data();
            let dd = choose|dd: crate::fake_multiply_gate::MultiplyDealing<S, N>|
                #[trigger] crate::fake_elem_multiply_gate::elem_dealing_ok(dd, x.lambda_clear@, y.lambda_clear@, rows * cols, key)
                && dd.lambda_clear == d.lambda_clear
                && dd.lambda.value_shares == d.lambda_shr
                && dd.lambda.mac_shares == d.lambda_shr_mac
                && forall|i: int| 0 <= i < N ==> #[trigger] w[i] == crate::fake_multiply_gate::dealing_bytes(dd, i);
            assert(rows * cols * 16 <= usize::MAX);
            crate::elem_multiply_gate::lemma_elem_file_agrees(dd, x.lambda_clear@, y.lambda_clear@, rows * cols, key, i);
            let p = crate::multiply_gate::dealing_pieces(dd, i);
            assert(split_into(w[i], layout_of(c, i as usize), p));
        },
    }
}

/// Law (reading back the dealer's files): a circuit built gate for gate like
/// the dealer's walks its gates in the dealer's order, and where the dealer
/// dealt the gates of that order one after the other, writing `ws[k]` for
/// the k-th (so that party i's file holds, after its key share, `written(ws,
/// i)`), party i's k-th gate cuts exactly the bytes `ws[k][i]` by its layout
/// and reads back its shares of the mask from them.
pub proof fn lemma_files_read_back<S: Spdz2kShare, const N: usize>(
    fnodes: Seq<FakeGateNode<S, N>>,
    cnodes: Seq<GateNode<S>>,
    endpoints: Seq<usize>,
    key: int,
    ws: Seq<Seq<Seq<u8>>>,
    i: int,
)
    requires
        fnodes.len() == cnodes.len(),
        fnodes.len() <= usize::MAX,
        forall|h: int| 0 <= h < fnodes.len() ==> #[trigger] fake_shape(fnodes, h),
        forall|h: int| 0 <= h < fnodes.len() ==> #[trigger] gates_match(fnodes[h], cnodes[h]),
        forall|k: int| 0 <= k < endpoints.len() ==> #[trigger] endpoints[k] < fnodes.len(),
        ws.len() == order_from(fake_links_of(fnodes), endpoints).len(),
        forall|k: int| 0 <= k < ws.len() ==> #[trigger] fake_dealt(fnodes, order_from(fake_links_of(fnodes), endpoints)[k] as int, key, ws[k]),
        forall|k: int| 0 <= k < ws.len() ==> #[trigger] dealt_sizes(fnodes, order_from(fake_links_of(fnodes), endpoints)[k] as int),
        0 <= i < N,
    ensures
        order_from(links_of(cnodes), endpoints) == order_from(fake_links_of(fnodes), endpoints),
        forall|k: int| 0 <= k < ws.len() ==> #[trigger] read_back(
            fnodes[order_from(fake_links_of(fnodes), endpoints)[k] as int],
            cnodes[order_from(fake_links_of(fnodes), endpoints)[k] as int],
            ws[k][i],
            i,
        ),
{
    let links = fake_links_of(fnodes);
    let order = order_from(links, endpoints);
    assert forall|h: int| 0 <= h < cnodes.len() implies links_of(cnodes)[h] == #[trigger] links[h] by {
        assert(gates_match(fnodes[h], cnodes[h]));
    }
    assert(links_of(cnodes) =~= links);
    assert forall|g: int| 0 <= g < links.len() implies #[trigger] inputs_earlier(links, g) by {
        assert(fake_shape(fnodes, g));
    }
    lemma_order_valid(links, endpoints);
    assert forall|k: int| 0 <= k < ws.len() implies #[trigger] read_back(fnodes[order[k] as int], cnodes[order[k] as int], ws[k][i], i) by {
        assert(order[k] < links.len());
        let g = order[k] as int;
        assert(fake_dealt(fnodes, g, key, ws[k]));
        assert(dealt_sizes(fnodes, g));
        assert(fake_shape(fnodes, g));
        assert(gates_match(fnodes[g], cnodes[g]));
        lemma_gate_read_back(fnodes, g, key, ws[k], cnodes[g], i);
    }
}

} // verus!
