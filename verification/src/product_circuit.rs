//! A whole circuit of two inputs, their matrix product and its output,
//! evaluated by two parties on the dealer's data: what each party opens.
use crate::beaver::matmul_share;
use crate::dealer::{lemma_clear_modulus_divides, lemma_two_party_shares};
use crate::fake_multiply_gate::{lemma_dealt_matmul, matmul_dealing_ok, party_values, MultiplyDealing};
use crate::ring::{cong, dot, lemma_cong, lemma_cong_divides, lemma_cong_mod, lemma_dot_mod, lemma_index, lemma_mat_mul_entry, mat_mul, pw_sub, seq_add};
use crate::share::{modulus, values, Spdz2kShare};
use vstd::prelude::*;

verus! {

/// The operand a product gate opens for an input gate: the input gate's
/// Delta (the input plus its clear mask, as the input gate computes it) plus
/// the dealt correction a - lambda (as the product gate adds it).
pub open spec fn product_operand(input: Seq<int>, mask: Seq<int>, correction: Seq<int>, ring: int) -> Seq<int> {
    seq_add(seq_add(input, mask, ring), correction, ring)
}

/// Entry t of what party p opens at the output gate of the circuit
/// input x, input y, z = x * y, output z: the product gate's Delta_z is the
/// sum of the two parties' Delta_z shares (reduced to K bits), and the output
/// gate subtracts the mask rebuilt from the other party's share and its own.
pub open spec fn product_opened<S: Spdz2kShare>(
    d: MultiplyDealing<S, 2>,
    lx: Seq<S::ClearType>,
    ly: Seq<S::ClearType>,
    xv: Seq<int>,
    yv: Seq<int>,
    rows: int,
    mid: int,
    cols: int,
    p: int,
    t: int,
) -> int {
    let ring = modulus::<S::SemiShrType>();
    let tx = product_operand(xv, values(lx), values(d.delta_x@), ring);
    let ty = product_operand(yv, values(ly), values(d.delta_y@), ring);
    let s0 = matmul_share(party_values(d.a, 0), party_values(d.b, 0), party_values(d.c, 0), party_values(d.lambda, 0), tx, ty, rows, mid, cols, ring, true)[t];
    let s1 = matmul_share(party_values(d.a, 1), party_values(d.b, 1), party_values(d.c, 1), party_values(d.lambda, 1), tx, ty, rows, mid, cols, ring, false)[t];
    let own = if p == 0 { s0 } else { s1 };
    let other = if p == 0 { s1 } else { s0 };
    let delta_z = ((other + own) % ring) % modulus::<S::ClearType>();
    let l_own = party_values(d.lambda, p)[t];
    let l_other = party_values(d.lambda, 1 - p)[t];
    (delta_z - (l_other + l_own) % ring) % ring
}

/// Law (the product circuit, end to end): when the dealer dealt the product
/// gate for the input gates' masks lx and ly, and party 0 put in the
/// matrices x and y, each party opens, in K bits, the product x * y: entry
/// (i, j) of what it opens is entry (i, j) of x * y in Z_{2^K}.
pub proof fn lemma_product_circuit_opens<S: Spdz2kShare>(
    d: MultiplyDealing<S, 2>,
    lx: Seq<S::ClearType>,
    ly: Seq<S::ClearType>,
    xv: Seq<int>,
    yv: Seq<int>,
    rows: int,
    mid: int,
    cols: int,
    key: int,
    p: int,
    i: int,
    j: int,
)
    requires
        matmul_dealing_ok(d, lx, ly, rows, mid, cols, key),
        lx.len() == rows * mid,
        ly.len() == mid * cols,
        xv.len() == rows * mid,
        yv.len() == mid * cols,
        0 <= mid,
        0 <= i < rows,
        0 <= j < cols,
        p == 0 || p == 1,
    ensures
        product_opened(d, lx, ly, xv, yv, rows, mid, cols, p, i * cols + j) % modulus::<S::ClearType>()
            == mat_mul(xv, yv, rows, mid, cols, modulus::<S::ClearType>())[i * cols + j],
{
    lemma_clear_modulus_divides::<S>();
    let pm = modulus::<S::ClearType>();
    let ring = modulus::<S::SemiShrType>();
    let t = i * cols + j;
    lemma_index(i, j, rows, cols);
    crate::beaver::lemma_row_col_range(rows, mid, cols, i, j);
    let ac = values(d.a_clear@);
    let bc = values(d.b_clear@);
    let lc = values(d.lambda_clear@);
    let tx = product_operand(xv, values(lx), values(d.delta_x@), ring);
    let ty = product_operand(yv, values(ly), values(d.delta_y@), ring);
    assert(tx.len() == rows * mid && ty.len() == mid * cols);
    // the opened operands minus the triple are the inputs, modulo 2^K
    assert forall|q: int| 0 <= q < mid implies #[trigger] (pw_sub(tx, ac)[i * mid + q] % pm) == xv[i * mid + q] % pm by {
        let e = i * mid + q;
        let x = xv[e];
        let l = values(lx)[e];
        let c = values(d.delta_x@)[e];
        assert(c == (ac[e] - l) % pm);
        lemma_cong_mod(x + l, ring);
        lemma_cong_divides((x + l) % ring, x + l, ring, pm);
        lemma_cong_mod(ac[e] - l, pm);
        lemma_cong((x + l) % ring, x + l, c, ac[e] - l, pm);
        lemma_cong_mod((x + l) % ring + c, ring);
        lemma_cong_divides(tx[e], (x + l) % ring + c, ring, pm);
        assert(cong(tx[e], x + l + (ac[e] - l), pm));
        lemma_cong(tx[e], x + ac[e], ac[e], ac[e], pm);
        assert(x + l + (ac[e] - l) == x + ac[e]);
    }
    assert forall|q: int| 0 <= q < mid implies #[trigger] (pw_sub(ty, bc)[q * cols + j] % pm) == yv[q * cols + j] % pm by {
        let e = q * cols + j;
        let y = yv[e];
        let l = values(ly)[e];
        let c = values(d.delta_y@)[e];
        assert(c == (bc[e] - l) % pm);
        lemma_cong_mod(y + l, ring);
        lemma_cong_divides((y + l) % ring, y + l, ring, pm);
        lemma_cong_mod(bc[e] - l, pm);
        lemma_cong((y + l) % ring, y + l, c, bc[e] - l, pm);
        lemma_cong_mod((y + l) % ring + c, ring);
        lemma_cong_divides(ty[e], (y + l) % ring + c, ring, pm);
        assert(cong(ty[e], y + l + (bc[e] - l), pm));
        lemma_cong(ty[e], y + bc[e], bc[e], bc[e], pm);
        assert(y + l + (bc[e] - l) == y + bc[e]);
    }
    lemma_dot_mod(xv, pw_sub(tx, ac), yv, pw_sub(ty, bc), mid, cols, i, j, mid, pm);
    let dxy = dot(xv, yv, mid, cols, i, j, mid);
    let dtt = dot(pw_sub(tx, ac), pw_sub(ty, bc), mid, cols, i, j, mid);
    // the two parties' Delta_z shares add up to x * y + lambda_z
    lemma_dealt_matmul(d, lx, ly, rows, mid, cols, key, tx, ty, i, j);
    let s0 = matmul_share(party_values(d.a, 0), party_values(d.b, 0), party_values(d.c, 0), party_values(d.lambda, 0), tx, ty, rows, mid, cols, ring, true)[t];
    let s1 = matmul_share(party_values(d.a, 1), party_values(d.b, 1), party_values(d.c, 1), party_values(d.lambda, 1), tx, ty, rows, mid, cols, ring, false)[t];
    assert(cong(s0 + s1, dtt + lc[t], pm));
    lemma_cong(dtt, dxy, lc[t], lc[t], pm);
    assert(cong(s0 + s1, dxy + lc[t], pm));
    // Delta_z, reduced twice
    let own = if p == 0 { s0 } else { s1 };
    let other = if p == 0 { s1 } else { s0 };
    assert(other + own == s0 + s1);
    lemma_cong_mod(other + own, ring);
    lemma_cong_divides((other + own) % ring, other + own, ring, pm);
    let dz = ((other + own) % ring) % pm;
    lemma_cong_mod((other + own) % ring, pm);
    assert(cong(dz, dxy + lc[t], pm));
    // the rebuilt mask is lambda_z
    lemma_two_party_shares::<S>(d.lambda.value_shares@, d.lambda.mac_shares@, lc, key, t);
    let l0 = party_values(d.lambda, 0)[t];
    let l1 = party_values(d.lambda, 1)[t];
    let lsum = party_values(d.lambda, 1 - p)[t] + party_values(d.lambda, p)[t];
    assert(lsum == l0 + l1);
    assert(cong(l0 + l1, lc[t], pm));
    lemma_cong_mod(lsum, ring);
    lemma_cong_divides(lsum % ring, lsum, ring, pm);
    lemma_cong(dz, dxy + lc[t], lsum % ring, lc[t], pm);
    let opened = (dz - lsum % ring) % ring;
    lemma_cong_mod(dz - lsum % ring, ring);
    lemma_cong_divides(opened, dz - lsum % ring, ring, pm);
    assert(dxy + lc[t] - lc[t] == dxy);
    assert(cong(opened, dxy, pm));
    assert(opened == product_opened(d, lx, ly, xv, yv, rows, mid, cols, p, t));
    lemma_mat_mul_entry(xv, yv, rows, mid, cols, pm, i, j);
    lemma_cong_mod(opened, pm);
}

} // verus!
