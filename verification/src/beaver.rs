//! Multiplication of shared matrices with a Beaver triple (a, b, c = a * b):
//! each party's share of Delta_z = x * y + lambda_z and of its MAC.
use crate::linear_algebra::{
    matrix_add, matrix_add_assign, matrix_elem_multiply, matrix_multiply, matrix_scalar,
    matrix_subtract_assign,
};
use crate::ring::{
    cong, lemma_cong_divides, dot, lemma_cong, lemma_cong_mod, lemma_dot_add_left, lemma_dot_add_right, lemma_dot_mod,
    lemma_dot_sub_both, lemma_mat_mul_entry, mat_mul, pw_add, pw_sub, seq_add, seq_mul, seq_scale,
    seq_sub,
};
use crate::share::{modulus, values, ShareElement};
use vstd::prelude::*;

verus! {

/// A party's share of Delta_z: c + lambda_z - a * ty - tx * b, plus tx * ty for
/// party 0, where `mul` is the product used (matrix or element-wise).
pub open spec fn beaver_combine(c: Seq<int>, lam: Seq<int>, a_ty: Seq<int>, tx_b: Seq<int>, txy: Seq<int>, m: int, first: bool) -> Seq<int> {
    let s = seq_sub(seq_sub(seq_add(c, lam, m), a_ty, m), tx_b, m);
    if first {
        seq_add(s, txy, m)
    } else {
        s
    }
}

/// A party's share of the MAC of Delta_z: key * tx * ty + c_mac + lambda_mac
/// - a_mac * ty - tx * b_mac.
pub open spec fn beaver_mac_combine(c_mac: Seq<int>, lam_mac: Seq<int>, amac_ty: Seq<int>, tx_bmac: Seq<int>, txy: Seq<int>, key: int, m: int) -> Seq<int> {
    seq_sub(seq_sub(seq_add(seq_add(seq_scale(txy, key, m), c_mac, m), lam_mac, m), amac_ty, m), tx_bmac, m)
}

/// The share of a product gate with matrix product: Delta_z share of the
/// multiplication of tx (dim_row x dim_mid) and ty (dim_mid x dim_col).
pub open spec fn matmul_share(a: Seq<int>, b: Seq<int>, c: Seq<int>, lam: Seq<int>, tx: Seq<int>, ty: Seq<int>, rows: int, mid: int, cols: int, m: int, first: bool) -> Seq<int> {
    beaver_combine(c, lam, mat_mul(a, ty, rows, mid, cols, m), mat_mul(tx, b, rows, mid, cols, m), mat_mul(tx, ty, rows, mid, cols, m), m, first)
}

pub open spec fn matmul_mac_share(a_mac: Seq<int>, b_mac: Seq<int>, c_mac: Seq<int>, lam_mac: Seq<int>, tx: Seq<int>, ty: Seq<int>, key: int, rows: int, mid: int, cols: int, m: int) -> Seq<int> {
    beaver_mac_combine(c_mac, lam_mac, mat_mul(a_mac, ty, rows, mid, cols, m), mat_mul(tx, b_mac, rows, mid, cols, m), mat_mul(tx, ty, rows, mid, cols, m), key, m)
}

pub open spec fn elem_share(a: Seq<int>, b: Seq<int>, c: Seq<int>, lam: Seq<int>, tx: Seq<int>, ty: Seq<int>, m: int, first: bool) -> Seq<int> {
    beaver_combine(c, lam, seq_mul(a, ty, m), seq_mul(tx, b, m), seq_mul(tx, ty, m), m, first)
}

pub open spec fn elem_mac_share(a_mac: Seq<int>, b_mac: Seq<int>, c_mac: Seq<int>, lam_mac: Seq<int>, tx: Seq<int>, ty: Seq<int>, key: int, m: int) -> Seq<int> {
    beaver_mac_combine(c_mac, lam_mac, seq_mul(a_mac, ty, m), seq_mul(tx, b_mac, m), seq_mul(tx, ty, m), key, m)
}

/// x + y in place, for vectors of the same length.
fn add_in_place<T: ShareElement>(x: &mut Vec<T>, y: &Vec<T>)
    requires
        old(x)@.len() == y@.len(),
    ensures
        final(x)@.len() == old(x)@.len(),
        values(final(x)@) == seq_add(values(old(x)@), values(y@), modulus::<T>()),
{
    matrix_add_assign(x, y.as_slice());
    assert(values(x@).subrange(0, values(x@).len() as int) =~= values(x@));
}

/// x - y in place, for vectors of the same length.
fn sub_in_place<T: ShareElement>(x: &mut Vec<T>, y: &Vec<T>)
    requires
        old(x)@.len() == y@.len(),
    ensures
        final(x)@.len() == old(x)@.len(),
        values(final(x)@) == seq_sub(values(old(x)@), values(y@), modulus::<T>()),
{
    matrix_subtract_assign(x, y.as_slice());
    assert(values(x@).subrange(0, values(x@).len() as int) =~= values(x@));
}

/// The opened operands tx = Delta_x + delta_x and ty = Delta_y + delta_y.
pub fn beaver_operands<T: ShareElement>(delta_x: &[T], delta_x_clear: &[T], delta_y: &[T], delta_y_clear: &[T]) -> (r: (Vec<T>, Vec<T>))
    ensures
        values(r.0@) == seq_add(values(delta_x@), values(delta_x_clear@), modulus::<T>()),
        values(r.1@) == seq_add(values(delta_y@), values(delta_y_clear@), modulus::<T>()),
{
    (matrix_add(delta_x, delta_x_clear), matrix_add(delta_y, delta_y_clear))
}

/// A party's share of Delta_z for the matrix product of the opened operands.
pub fn matmul_delta_share<T: ShareElement>(
    a_shr: &[T],
    b_shr: &[T],
    c_shr: &[T],
    lambda_shr: &[T],
    temp_x: &[T],
    temp_y: &[T],
    temp_xy: &Vec<T>,
    dim_row: usize,
    dim_mid: usize,
    dim_col: usize,
    my_id: usize,
) -> (r: Vec<T>)
    requires
        a_shr@.len() == dim_row * dim_mid,
        temp_x@.len() == dim_row * dim_mid,
        b_shr@.len() == dim_mid * dim_col,
        temp_y@.len() == dim_mid * dim_col,
        c_shr@.len() == dim_row * dim_col,
        lambda_shr@.len() == dim_row * dim_col,
        dim_row * dim_col <= usize::MAX,
        temp_xy@.len() == dim_row * dim_col,
        values(temp_xy@) == mat_mul(values(temp_x@), values(temp_y@), dim_row as int, dim_mid as int, dim_col as int, modulus::<T>()),
    ensures
        values(r@) == matmul_share(values(a_shr@), values(b_shr@), values(c_shr@), values(lambda_shr@), values(temp_x@), values(temp_y@), dim_row as int, dim_mid as int, dim_col as int, modulus::<T>(), my_id == 0),
{
    let mut delta_z_shr = matrix_add(c_shr, lambda_shr);
    let a_ty = matrix_multiply(a_shr, temp_y, dim_row, dim_mid, dim_col);
    sub_in_place(&mut delta_z_shr, &a_ty);
    let tx_b = matrix_multiply(temp_x, b_shr, dim_row, dim_mid, dim_col);
    sub_in_place(&mut delta_z_shr, &tx_b);
    if my_id == 0 {
        add_in_place(&mut delta_z_shr, temp_xy);
    }
    delta_z_shr
}

/// A party's share of the MAC of Delta_z for the matrix product.
pub fn matmul_mac_share_exec<T: ShareElement>(
    a_shr_mac: &[T],
    b_shr_mac: &[T],
    c_shr_mac: &Vec<T>,
    lambda_shr_mac: &Vec<T>,
    temp_x: &[T],
    temp_y: &[T],
    temp_xy: &Vec<T>,
    key: T,
    dim_row: usize,
    dim_mid: usize,
    dim_col: usize,
) -> (r: Vec<T>)
    requires
        a_shr_mac@.len() == dim_row * dim_mid,
        temp_x@.len() == dim_row * dim_mid,
        b_shr_mac@.len() == dim_mid * dim_col,
        temp_y@.len() == dim_mid * dim_col,
        c_shr_mac@.len() == dim_row * dim_col,
        lambda_shr_mac@.len() == dim_row * dim_col,
        dim_row * dim_col <= usize::MAX,
        temp_xy@.len() == dim_row * dim_col,
        values(temp_xy@) == mat_mul(values(temp_x@), values(temp_y@), dim_row as int, dim_mid as int, dim_col as int, modulus::<T>()),
    ensures
        values(r@) == matmul_mac_share(values(a_shr_mac@), values(b_shr_mac@), values(c_shr_mac@), values(lambda_shr_mac@), values(temp_x@), values(temp_y@), key.value(), dim_row as int, dim_mid as int, dim_col as int, modulus::<T>()),
{
    let mut delta_z_mac = matrix_scalar(temp_xy.as_slice(), key);
    add_in_place(&mut delta_z_mac, c_shr_mac);
    add_in_place(&mut delta_z_mac, lambda_shr_mac);
    let amac_ty = matrix_multiply(a_shr_mac, temp_y, dim_row, dim_mid, dim_col);
    sub_in_place(&mut delta_z_mac, &amac_ty);
    let tx_bmac = matrix_multiply(temp_x, b_shr_mac, dim_row, dim_mid, dim_col);
    sub_in_place(&mut delta_z_mac, &tx_bmac);
    delta_z_mac
}

/// A party's share of Delta_z for the element-wise product.
pub fn elem_delta_share<T: ShareElement>(
    a_shr: &[T],
    b_shr: &[T],
    c_shr: &[T],
    lambda_shr: &[T],
    temp_x: &[T],
    temp_y: &[T],
    temp_xy: &Vec<T>,
    my_id: usize,
) -> (r: Vec<T>)
    requires
        a_shr@.len() == temp_x@.len(),
        b_shr@.len() == temp_x@.len(),
        c_shr@.len() == temp_x@.len(),
        lambda_shr@.len() == temp_x@.len(),
        temp_y@.len() == temp_x@.len(),
        temp_xy@.len() == temp_x@.len(),
        values(temp_xy@) == seq_mul(values(temp_x@), values(temp_y@), modulus::<T>()),
    ensures
        values(r@) == elem_share(values(a_shr@), values(b_shr@), values(c_shr@), values(lambda_shr@), values(temp_x@), values(temp_y@), modulus::<T>(), my_id == 0),
{
    let mut delta_z_shr = matrix_add(c_shr, lambda_shr);
    let a_ty = matrix_elem_multiply(a_shr, temp_y);
    sub_in_place(&mut delta_z_shr, &a_ty);
    let tx_b = matrix_elem_multiply(temp_x, b_shr);
    sub_in_place(&mut delta_z_shr, &tx_b);
    if my_id == 0 {
        add_in_place(&mut delta_z_shr, temp_xy);
    }
    delta_z_shr
}

/// A party's share of the MAC of Delta_z for the element-wise product.
pub fn elem_mac_share_exec<T: ShareElement>(
    a_shr_mac: &[T],
    b_shr_mac: &[T],
    c_shr_mac: &Vec<T>,
    lambda_shr_mac: &Vec<T>,
    temp_x: &[T],
    temp_y: &[T],
    temp_xy: &Vec<T>,
    key: T,
) -> (r: Vec<T>)
    requires
        a_shr_mac@.len() == temp_x@.len(),
        b_shr_mac@.len() == temp_x@.len(),
        c_shr_mac@.len() == temp_x@.len(),
        lambda_shr_mac@.len() == temp_x@.len(),
        temp_y@.len() == temp_x@.len(),
        temp_xy@.len() == temp_x@.len(),
        values(temp_xy@) == seq_mul(values(temp_x@), values(temp_y@), modulus::<T>()),
    ensures
        values(r@) == elem_mac_share(values(a_shr_mac@), values(b_shr_mac@), values(c_shr_mac@), values(lambda_shr_mac@), values(temp_x@), values(temp_y@), key.value(), modulus::<T>()),
{
    let mut delta_z_mac = matrix_scalar(temp_xy.as_slice(), key);
    add_in_place(&mut delta_z_mac, c_shr_mac);
    add_in_place(&mut delta_z_mac, lambda_shr_mac);
    let amac_ty = matrix_elem_multiply(a_shr_mac, temp_y);
    sub_in_place(&mut delta_z_mac, &amac_ty);
    let tx_bmac = matrix_elem_multiply(temp_x, b_shr_mac);
    sub_in_place(&mut delta_z_mac, &tx_bmac);
    delta_z_mac
}


/// Each entry of a party's Delta_z share is, modulo m, its unreduced sum.
proof fn lemma_combine_cong(c: Seq<int>, lam: Seq<int>, aty: Seq<int>, txb: Seq<int>, txy: Seq<int>, m: int, first: bool, t: int)
    requires
        m > 0,
        0 <= t < c.len(),
        c.len() == lam.len(),
        c.len() == aty.len(),
        c.len() == txb.len(),
        c.len() == txy.len(),
    ensures
        beaver_combine(c, lam, aty, txb, txy, m, first).len() == c.len(),
        cong(beaver_combine(c, lam, aty, txb, txy, m, first)[t], c[t] + lam[t] - aty[t] - txb[t] + (if first { txy[t] } else { 0 }), m),
{
    let s1 = seq_add(c, lam, m);
    let s2 = seq_sub(s1, aty, m);
    let s3 = seq_sub(s2, txb, m);
    lemma_cong_mod(c[t] + lam[t], m);
    lemma_cong(s1[t], c[t] + lam[t], aty[t], aty[t], m);
    lemma_cong_mod(s1[t] - aty[t], m);
    lemma_cong(s2[t], c[t] + lam[t] - aty[t], txb[t], txb[t], m);
    lemma_cong_mod(s2[t] - txb[t], m);
    if first {
        lemma_cong(s3[t], c[t] + lam[t] - aty[t] - txb[t], txy[t], txy[t], m);
        lemma_cong_mod(s3[t] + txy[t], m);
    }
}

/// The two parties' Delta_z shares for the element-wise product add up, modulo
/// the ring size, to c + lambda - a * ty - tx * b + tx * ty with a, b, c and
/// lambda the sums of the two parties' shares.
proof fn lemma_elem_share_sum(a0: Seq<int>, a1: Seq<int>, b0: Seq<int>, b1: Seq<int>, c0: Seq<int>, c1: Seq<int>, l0: Seq<int>, l1: Seq<int>, tx: Seq<int>, ty: Seq<int>, ring: int, t: int)
    requires
        ring > 0,
        0 <= t < tx.len(),
        a0.len() == tx.len() && a1.len() == tx.len() && b0.len() == tx.len() && b1.len() == tx.len(),
        c0.len() == tx.len() && c1.len() == tx.len() && l0.len() == tx.len() && l1.len() == tx.len(),
        ty.len() == tx.len(),
    ensures
        cong(
            elem_share(a0, b0, c0, l0, tx, ty, ring, true)[t] + elem_share(a1, b1, c1, l1, tx, ty, ring, false)[t],
            (c0[t] + c1[t]) + (l0[t] + l1[t]) - (a0[t] + a1[t]) * ty[t] - tx[t] * (b0[t] + b1[t]) + tx[t] * ty[t],
            ring,
        ),
{
    let txy = seq_mul(tx, ty, ring);
    let a0ty = seq_mul(a0, ty, ring);
    let a1ty = seq_mul(a1, ty, ring);
    let txb0 = seq_mul(tx, b0, ring);
    let txb1 = seq_mul(tx, b1, ring);
    lemma_combine_cong(c0, l0, a0ty, txb0, txy, ring, true, t);
    lemma_combine_cong(c1, l1, a1ty, txb1, txy, ring, false, t);
    lemma_cong_mod(a0[t] * ty[t], ring);
    lemma_cong_mod(a1[t] * ty[t], ring);
    lemma_cong_mod(tx[t] * b0[t], ring);
    lemma_cong_mod(tx[t] * b1[t], ring);
    lemma_cong_mod(tx[t] * ty[t], ring);
    let f0 = c0[t] + l0[t] - a0[t] * ty[t] - tx[t] * b0[t] + tx[t] * ty[t];
    let f1 = c1[t] + l1[t] - a1[t] * ty[t] - tx[t] * b1[t];
    lemma_cong(c0[t] + l0[t], c0[t] + l0[t], a0ty[t], a0[t] * ty[t], ring);
    lemma_cong(c0[t] + l0[t] - a0ty[t], c0[t] + l0[t] - a0[t] * ty[t], txb0[t], tx[t] * b0[t], ring);
    lemma_cong(c0[t] + l0[t] - a0ty[t] - txb0[t], c0[t] + l0[t] - a0[t] * ty[t] - tx[t] * b0[t], txy[t], tx[t] * ty[t], ring);
    lemma_cong(c1[t] + l1[t], c1[t] + l1[t], a1ty[t], a1[t] * ty[t], ring);
    lemma_cong(c1[t] + l1[t] - a1ty[t], c1[t] + l1[t] - a1[t] * ty[t], txb1[t], tx[t] * b1[t], ring);
    let s0 = elem_share(a0, b0, c0, l0, tx, ty, ring, true)[t];
    let s1 = elem_share(a1, b1, c1, l1, tx, ty, ring, false)[t];
    lemma_cong(s0, f0, s1, f1, ring);
    let x = tx[t];
    let y = ty[t];
    assert(f0 + f1 == (c0[t] + c1[t]) + (l0[t] + l1[t]) - (a0[t] + a1[t]) * y - x * (b0[t] + b1[t]) + x * y) by (nonlinear_arith)
        requires
            f0 == c0[t] + l0[t] - a0[t] * y - x * b0[t] + x * y,
            f1 == c1[t] + l1[t] - a1[t] * y - x * b1[t],
    ;
}

/// Law (element-wise multiplication): the parties compute their Delta_z
/// shares in Z_ring; with a triple valid in Z_m for m dividing the ring size
/// (c0 + c1 = (a0 + a1) * (b0 + b1) mod m), the shares add up to
/// x * y + lambda_z mod m, where x = tx - a and y = ty - b are the values the
/// operands stand for.
pub proof fn lemma_elem_beaver(a0: Seq<int>, a1: Seq<int>, b0: Seq<int>, b1: Seq<int>, c0: Seq<int>, c1: Seq<int>, l0: Seq<int>, l1: Seq<int>, tx: Seq<int>, ty: Seq<int>, ring: int, m: int, t: int)
    requires
        m > 0,
        ring > 0,
        ring % m == 0,
        0 <= t < tx.len(),
        a0.len() == tx.len() && a1.len() == tx.len() && b0.len() == tx.len() && b1.len() == tx.len(),
        c0.len() == tx.len() && c1.len() == tx.len() && l0.len() == tx.len() && l1.len() == tx.len(),
        ty.len() == tx.len(),
        cong(c0[t] + c1[t], (a0[t] + a1[t]) * (b0[t] + b1[t]), m),
    ensures
        cong(
            elem_share(a0, b0, c0, l0, tx, ty, ring, true)[t] + elem_share(a1, b1, c1, l1, tx, ty, ring, false)[t],
            (tx[t] - (a0[t] + a1[t])) * (ty[t] - (b0[t] + b1[t])) + l0[t] + l1[t],
            m,
        ),
{
    lemma_elem_share_sum(a0, a1, b0, b1, c0, c1, l0, l1, tx, ty, ring, t);
    let s0 = elem_share(a0, b0, c0, l0, tx, ty, ring, true)[t];
    let s1 = elem_share(a1, b1, c1, l1, tx, ty, ring, false)[t];
    let a = a0[t] + a1[t];
    let b = b0[t] + b1[t];
    let x = tx[t];
    let y = ty[t];
    let rest = (l0[t] + l1[t]) - a * y - x * b + x * y;
    lemma_cong_divides(s0 + s1, (c0[t] + c1[t]) + rest, ring, m);
    assert((x - a) * (y - b) + l0[t] + l1[t] == a * b + rest) by (nonlinear_arith)
        requires
            rest == (l0[t] + l1[t]) - a * y - x * b + x * y,
    ;
    lemma_cong(c0[t] + c1[t], a * b, rest, rest, m);
}

/// Each entry of a party's MAC share of Delta_z is, modulo m, its unreduced
/// sum.
proof fn lemma_mac_combine_cong(c_mac: Seq<int>, lam_mac: Seq<int>, amty: Seq<int>, txbm: Seq<int>, txy: Seq<int>, key: int, m: int, t: int)
    requires
        m > 0,
        0 <= t < c_mac.len(),
        c_mac.len() == lam_mac.len(),
        c_mac.len() == amty.len(),
        c_mac.len() == txbm.len(),
        c_mac.len() == txy.len(),
    ensures
        beaver_mac_combine(c_mac, lam_mac, amty, txbm, txy, key, m).len() == c_mac.len(),
        cong(beaver_mac_combine(c_mac, lam_mac, amty, txbm, txy, key, m)[t], key * txy[t] + c_mac[t] + lam_mac[t] - amty[t] - txbm[t], m),
{
    let s0 = seq_scale(txy, key, m);
    let s1 = seq_add(s0, c_mac, m);
    let s2 = seq_add(s1, lam_mac, m);
    let s3 = seq_sub(s2, amty, m);
    lemma_cong_mod(key * txy[t], m);
    lemma_cong(s0[t], key * txy[t], c_mac[t], c_mac[t], m);
    lemma_cong_mod(s0[t] + c_mac[t], m);
    lemma_cong(s1[t], key * txy[t] + c_mac[t], lam_mac[t], lam_mac[t], m);
    lemma_cong_mod(s1[t] + lam_mac[t], m);
    lemma_cong(s2[t], key * txy[t] + c_mac[t] + lam_mac[t], amty[t], amty[t], m);
    lemma_cong_mod(s2[t] - amty[t], m);
    lemma_cong(s3[t], key * txy[t] + c_mac[t] + lam_mac[t] - amty[t], txbm[t], txbm[t], m);
    lemma_cong_mod(s3[t] - txbm[t], m);
}

/// With MACs valid under the key k (each MAC congruent to k times its
/// value), the MAC combination k * xy + c_mac + lambda_mac - (a_mac y)
/// - (x b_mac) is k times c + lambda - ay - xb + xy.
proof fn lemma_mac_algebra(k: int, ay: int, xb: int, xy: int, c: int, l: int, am_y: int, x_bm: int, cm: int, lm: int, m: int)
    requires
        m > 0,
        cong(am_y, k * ay, m),
        cong(x_bm, k * xb, m),
        cong(cm, k * c, m),
        cong(lm, k * l, m),
    ensures
        cong(k * xy + cm + lm - am_y - x_bm, k * (c + l - ay - xb + xy), m),
{
    lemma_cong(k * xy, k * xy, cm, k * c, m);
    lemma_cong(k * xy + cm, k * xy + k * c, lm, k * l, m);
    lemma_cong(k * xy + cm + lm, k * xy + k * c + k * l, am_y, k * ay, m);
    lemma_cong(k * xy + cm + lm - am_y, k * xy + k * c + k * l - k * ay, x_bm, k * xb, m);
    assert(k * xy + k * c + k * l - k * ay - k * xb == k * (c + l - ay - xb + xy)) by (nonlinear_arith);
}

/// Law (MAC of an element-wise product): with MAC shares valid under the
/// global key k0 + k1 for the triple and for lambda_z (the two parties' MAC
/// shares add up to the key times the value, mod m), the MAC shares that the
/// parties compute for Delta_z add up to the key times the sum of their
/// Delta_z shares, mod m.
pub proof fn lemma_elem_mac(
    a0: Seq<int>, a1: Seq<int>, b0: Seq<int>, b1: Seq<int>, c0: Seq<int>, c1: Seq<int>, l0: Seq<int>, l1: Seq<int>,
    am0: Seq<int>, am1: Seq<int>, bm0: Seq<int>, bm1: Seq<int>, cm0: Seq<int>, cm1: Seq<int>, lm0: Seq<int>, lm1: Seq<int>,
    tx: Seq<int>, ty: Seq<int>, k0: int, k1: int, ring: int, m: int, t: int,
)
    requires
        m > 0,
        ring > 0,
        ring % m == 0,
        0 <= t < tx.len(),
        a0.len() == tx.len() && a1.len() == tx.len() && b0.len() == tx.len() && b1.len() == tx.len(),
        c0.len() == tx.len() && c1.len() == tx.len() && l0.len() == tx.len() && l1.len() == tx.len(),
        am0.len() == tx.len() && am1.len() == tx.len() && bm0.len() == tx.len() && bm1.len() == tx.len(),
        cm0.len() == tx.len() && cm1.len() == tx.len() && lm0.len() == tx.len() && lm1.len() == tx.len(),
        ty.len() == tx.len(),
        cong(am0[t] + am1[t], (k0 + k1) * (a0[t] + a1[t]), m),
        cong(bm0[t] + bm1[t], (k0 + k1) * (b0[t] + b1[t]), m),
        cong(cm0[t] + cm1[t], (k0 + k1) * (c0[t] + c1[t]), m),
        cong(lm0[t] + lm1[t], (k0 + k1) * (l0[t] + l1[t]), m),
    ensures
        cong(
            elem_mac_share(am0, bm0, cm0, lm0, tx, ty, k0, ring)[t] + elem_mac_share(am1, bm1, cm1, lm1, tx, ty, k1, ring)[t],
            (k0 + k1) * (elem_share(a0, b0, c0, l0, tx, ty, ring, true)[t] + elem_share(a1, b1, c1, l1, tx, ty, ring, false)[t]),
            m,
        ),
{
    let x = tx[t];
    let y = ty[t];
    let k = k0 + k1;
    let txy = seq_mul(tx, ty, ring);
    let am0y = seq_mul(am0, ty, ring);
    let am1y = seq_mul(am1, ty, ring);
    let xbm0 = seq_mul(tx, bm0, ring);
    let xbm1 = seq_mul(tx, bm1, ring);
    lemma_mac_combine_cong(cm0, lm0, am0y, xbm0, txy, k0, ring, t);
    lemma_mac_combine_cong(cm1, lm1, am1y, xbm1, txy, k1, ring, t);
    lemma_cong_mod(x * y, ring);
    lemma_cong_mod(am0[t] * y, ring);
    lemma_cong_mod(am1[t] * y, ring);
    lemma_cong_mod(x * bm0[t], ring);
    lemma_cong_mod(x * bm1[t], ring);
    let mac0 = elem_mac_share(am0, bm0, cm0, lm0, tx, ty, k0, ring)[t];
    let mac1 = elem_mac_share(am1, bm1, cm1, lm1, tx, ty, k1, ring)[t];
    // each MAC share, with the products taken over the integers
    lemma_cong(k0, k0, txy[t], x * y, ring);
    lemma_cong(k0 * txy[t], k0 * (x * y), cm0[t], cm0[t], ring);
    lemma_cong(k0 * txy[t] + cm0[t], k0 * (x * y) + cm0[t], lm0[t], lm0[t], ring);
    lemma_cong(k0 * txy[t] + cm0[t] + lm0[t], k0 * (x * y) + cm0[t] + lm0[t], am0y[t], am0[t] * y, ring);
    lemma_cong(k0 * txy[t] + cm0[t] + lm0[t] - am0y[t], k0 * (x * y) + cm0[t] + lm0[t] - am0[t] * y, xbm0[t], x * bm0[t], ring);
    lemma_cong(k1, k1, txy[t], x * y, ring);
    lemma_cong(k1 * txy[t], k1 * (x * y), cm1[t], cm1[t], ring);
    lemma_cong(k1 * txy[t] + cm1[t], k1 * (x * y) + cm1[t], lm1[t], lm1[t], ring);
    lemma_cong(k1 * txy[t] + cm1[t] + lm1[t], k1 * (x * y) + cm1[t] + lm1[t], am1y[t], am1[t] * y, ring);
    lemma_cong(k1 * txy[t] + cm1[t] + lm1[t] - am1y[t], k1 * (x * y) + cm1[t] + lm1[t] - am1[t] * y, xbm1[t], x * bm1[t], ring);
    let g0 = k0 * (x * y) + cm0[t] + lm0[t] - am0[t] * y - x * bm0[t];
    let g1 = k1 * (x * y) + cm1[t] + lm1[t] - am1[t] * y - x * bm1[t];
    lemma_cong(mac0, g0, mac1, g1, ring);
    let am = am0[t] + am1[t];
    let bm = bm0[t] + bm1[t];
    let cm = cm0[t] + cm1[t];
    let lm = lm0[t] + lm1[t];
    assert(g0 + g1 == k * (x * y) + cm + lm - am * y - x * bm) by (nonlinear_arith)
        requires
            g0 == k0 * (x * y) + cm0[t] + lm0[t] - am0[t] * y - x * bm0[t],
            g1 == k1 * (x * y) + cm1[t] + lm1[t] - am1[t] * y - x * bm1[t],
            k == k0 + k1,
            am == am0[t] + am1[t],
            bm == bm0[t] + bm1[t],
            cm == cm0[t] + cm1[t],
            lm == lm0[t] + lm1[t],
    ;
    lemma_cong_divides(mac0 + mac1, g0 + g1, ring, m);
    let a = a0[t] + a1[t];
    let b = b0[t] + b1[t];
    let c = c0[t] + c1[t];
    let l = l0[t] + l1[t];
    lemma_cong(am, k * a, y, y, m);
    lemma_cong(x, x, bm, k * b, m);
    assert((k * a) * y == k * (a * y) && x * (k * b) == k * (x * b)) by (nonlinear_arith);
    lemma_mac_algebra(k, a * y, x * b, x * y, c, l, am * y, x * bm, cm, lm, m);
    // the Delta_z shares
    lemma_elem_share_sum(a0, a1, b0, b1, c0, c1, l0, l1, tx, ty, ring, t);
    let s0 = elem_share(a0, b0, c0, l0, tx, ty, ring, true)[t];
    let s1 = elem_share(a1, b1, c1, l1, tx, ty, ring, false)[t];
    let f = c + l - a * y - x * b + x * y;
    lemma_cong_divides(s0 + s1, f, ring, m);
    lemma_cong(k, k, s0 + s1, f, m);
}

/// The rows-mid entries of row i, and the mid-cols entries of column j, are
/// in range.
pub proof fn lemma_row_col_range(rows: int, mid: int, cols: int, i: int, j: int)
    requires
        0 <= i < rows,
        0 <= j < cols,
        0 <= mid,
    ensures
        forall|k: int| 0 <= k < mid ==> 0 <= #[trigger] (i * mid + k) < rows * mid,
        forall|k: int| 0 <= k < mid ==> 0 <= #[trigger] (k * cols + j) < mid * cols,
{
    assert forall|k: int| 0 <= k < mid implies 0 <= #[trigger] (i * mid + k) < rows * mid by {
        assert(0 <= i * mid + k < rows * mid) by (nonlinear_arith)
            requires
                0 <= i < rows,
                0 <= k < mid,
        ;
    }
    assert forall|k: int| 0 <= k < mid implies 0 <= #[trigger] (k * cols + j) < mid * cols by {
        assert(0 <= k * cols + j < mid * cols) by (nonlinear_arith)
            requires
                0 <= j < cols,
                0 <= k < mid,
        ;
    }
}

/// The two parties' Delta_z shares for the matrix product add up, entry
/// (i, j) and modulo the ring size, to c + lambda - (a ty) - (tx b) + (tx ty)
/// with a, b, c and lambda the sums of the two parties' shares.
proof fn lemma_mat_share_sum(
    a0: Seq<int>, a1: Seq<int>, b0: Seq<int>, b1: Seq<int>, c0: Seq<int>, c1: Seq<int>, l0: Seq<int>, l1: Seq<int>,
    tx: Seq<int>, ty: Seq<int>, rows: int, mid: int, cols: int, ring: int, i: int, j: int,
)
    requires
        ring > 0,
        0 <= i < rows,
        0 <= j < cols,
        0 <= mid,
        a0.len() == rows * mid && a1.len() == rows * mid && tx.len() == rows * mid,
        b0.len() == mid * cols && b1.len() == mid * cols && ty.len() == mid * cols,
        c0.len() == rows * cols && c1.len() == rows * cols && l0.len() == rows * cols && l1.len() == rows * cols,
    ensures
        0 <= i * cols + j < rows * cols,
        cong(
            matmul_share(a0, b0, c0, l0, tx, ty, rows, mid, cols, ring, true)[i * cols + j]
                + matmul_share(a1, b1, c1, l1, tx, ty, rows, mid, cols, ring, false)[i * cols + j],
            (c0[i * cols + j] + c1[i * cols + j]) + (l0[i * cols + j] + l1[i * cols + j])
                - dot(pw_add(a0, a1), ty, mid, cols, i, j, mid) - dot(tx, pw_add(b0, b1), mid, cols, i, j, mid)
                + dot(tx, ty, mid, cols, i, j, mid),
            ring,
        ),
{
    let t = i * cols + j;
    crate::ring::lemma_index(i, j, rows, cols);
    lemma_row_col_range(rows, mid, cols, i, j);
    let a = pw_add(a0, a1);
    let b = pw_add(b0, b1);
    let txy = mat_mul(tx, ty, rows, mid, cols, ring);
    let a0ty = mat_mul(a0, ty, rows, mid, cols, ring);
    let a1ty = mat_mul(a1, ty, rows, mid, cols, ring);
    let txb0 = mat_mul(tx, b0, rows, mid, cols, ring);
    let txb1 = mat_mul(tx, b1, rows, mid, cols, ring);
    lemma_mat_mul_entry(tx, ty, rows, mid, cols, ring, i, j);
    lemma_mat_mul_entry(a0, ty, rows, mid, cols, ring, i, j);
    lemma_mat_mul_entry(a1, ty, rows, mid, cols, ring, i, j);
    lemma_mat_mul_entry(tx, b0, rows, mid, cols, ring, i, j);
    lemma_mat_mul_entry(tx, b1, rows, mid, cols, ring, i, j);
    lemma_combine_cong(c0, l0, a0ty, txb0, txy, ring, true, t);
    lemma_combine_cong(c1, l1, a1ty, txb1, txy, ring, false, t);
    let d_a0y = dot(a0, ty, mid, cols, i, j, mid);
    let d_a1y = dot(a1, ty, mid, cols, i, j, mid);
    let d_xb0 = dot(tx, b0, mid, cols, i, j, mid);
    let d_xb1 = dot(tx, b1, mid, cols, i, j, mid);
    let d_xy = dot(tx, ty, mid, cols, i, j, mid);
    lemma_cong_mod(d_a0y, ring);
    lemma_cong_mod(d_a1y, ring);
    lemma_cong_mod(d_xb0, ring);
    lemma_cong_mod(d_xb1, ring);
    lemma_cong_mod(d_xy, ring);
    assert forall|k: int| 0 <= k < mid implies #[trigger] a[i * mid + k] == a0[i * mid + k] + a1[i * mid + k] by {
        assert(0 <= i * mid + k < rows * mid);
    }
    assert forall|k: int| 0 <= k < mid implies #[trigger] b[k * cols + j] == b0[k * cols + j] + b1[k * cols + j] by {
        assert(0 <= k * cols + j < mid * cols);
    }
    lemma_dot_add_left(a0, a1, a, ty, mid, cols, i, j, mid);
    lemma_dot_add_right(tx, b0, b1, b, mid, cols, i, j, mid);
    let f0 = c0[t] + l0[t] - d_a0y - d_xb0 + d_xy;
    let f1 = c1[t] + l1[t] - d_a1y - d_xb1;
    lemma_cong(c0[t] + l0[t], c0[t] + l0[t], a0ty[t], d_a0y, ring);
    lemma_cong(c0[t] + l0[t] - a0ty[t], c0[t] + l0[t] - d_a0y, txb0[t], d_xb0, ring);
    lemma_cong(c0[t] + l0[t] - a0ty[t] - txb0[t], c0[t] + l0[t] - d_a0y - d_xb0, txy[t], d_xy, ring);
    lemma_cong(c1[t] + l1[t], c1[t] + l1[t], a1ty[t], d_a1y, ring);
    lemma_cong(c1[t] + l1[t] - a1ty[t], c1[t] + l1[t] - d_a1y, txb1[t], d_xb1, ring);
    let s0 = matmul_share(a0, b0, c0, l0, tx, ty, rows, mid, cols, ring, true)[t];
    let s1 = matmul_share(a1, b1, c1, l1, tx, ty, rows, mid, cols, ring, false)[t];
    lemma_cong(s0, f0, s1, f1, ring);
}

/// Law (matrix multiplication): the parties compute their Delta_z shares in
/// Z_ring; with a matrix triple valid in Z_m for m dividing the ring size
/// (c0 + c1 = (a0 + a1) * (b0 + b1) mod m, entry by entry), the shares add
/// up, entry (i, j), to (x * y)[i][j] + lambda_z[i][j] mod m, where
/// x = tx - a and y = ty - b.
pub proof fn lemma_matmul_beaver(
    a0: Seq<int>,
    a1: Seq<int>,
    b0: Seq<int>,
    b1: Seq<int>,
    c0: Seq<int>,
    c1: Seq<int>,
    l0: Seq<int>,
    l1: Seq<int>,
    tx: Seq<int>,
    ty: Seq<int>,
    rows: int,
    mid: int,
    cols: int,
    ring: int,
    m: int,
    i: int,
    j: int,
)
    requires
        m > 0,
        ring > 0,
        ring % m == 0,
        0 <= i < rows,
        0 <= j < cols,
        0 <= mid,
        a0.len() == rows * mid && a1.len() == rows * mid && tx.len() == rows * mid,
        b0.len() == mid * cols && b1.len() == mid * cols && ty.len() == mid * cols,
        c0.len() == rows * cols && c1.len() == rows * cols && l0.len() == rows * cols && l1.len() == rows * cols,
        cong(c0[i * cols + j] + c1[i * cols + j], dot(pw_add(a0, a1), pw_add(b0, b1), mid, cols, i, j, mid), m),
    ensures
        cong(
            matmul_share(a0, b0, c0, l0, tx, ty, rows, mid, cols, ring, true)[i * cols + j]
                + matmul_share(a1, b1, c1, l1, tx, ty, rows, mid, cols, ring, false)[i * cols + j],
            dot(pw_sub(tx, pw_add(a0, a1)), pw_sub(ty, pw_add(b0, b1)), mid, cols, i, j, mid) + l0[i * cols + j] + l1[i * cols + j],
            m,
        ),
{
    let t = i * cols + j;
    lemma_mat_share_sum(a0, a1, b0, b1, c0, c1, l0, l1, tx, ty, rows, mid, cols, ring, i, j);
    lemma_row_col_range(rows, mid, cols, i, j);
    let a = pw_add(a0, a1);
    let b = pw_add(b0, b1);
    let d_ay = dot(a, ty, mid, cols, i, j, mid);
    let d_xb = dot(tx, b, mid, cols, i, j, mid);
    let d_ab = dot(a, b, mid, cols, i, j, mid);
    let d_xy = dot(tx, ty, mid, cols, i, j, mid);
    let xs = pw_sub(tx, a);
    let ys = pw_sub(ty, b);
    assert forall|k: int| 0 <= k < mid implies #[trigger] xs[i * mid + k] == tx[i * mid + k] - a[i * mid + k] by {
        assert(0 <= i * mid + k < rows * mid);
    }
    assert forall|k: int| 0 <= k < mid implies #[trigger] ys[k * cols + j] == ty[k * cols + j] - b[k * cols + j] by {
        assert(0 <= k * cols + j < mid * cols);
    }
    lemma_dot_sub_both(tx, a, xs, ty, b, ys, mid, cols, i, j, mid);
    let s0 = matmul_share(a0, b0, c0, l0, tx, ty, rows, mid, cols, ring, true)[t];
    let s1 = matmul_share(a1, b1, c1, l1, tx, ty, rows, mid, cols, ring, false)[t];
    let rest = (l0[t] + l1[t]) - d_ay - d_xb + d_xy;
    lemma_cong_divides(s0 + s1, (c0[t] + c1[t]) + rest, ring, m);
    lemma_cong(c0[t] + c1[t], d_ab, rest, rest, m);
}

/// Law (MAC of a matrix product): with MAC shares valid under the global key
/// k0 + k1 for the triple and for lambda_z (the two parties' MAC shares add
/// up to the key times the value, mod m, entry by entry), the MAC shares that
/// the parties compute for Delta_z add up, entry (i, j), to the key times the
/// sum of their Delta_z shares, mod m.
pub proof fn lemma_matmul_mac(
    a0: Seq<int>, a1: Seq<int>, b0: Seq<int>, b1: Seq<int>, c0: Seq<int>, c1: Seq<int>, l0: Seq<int>, l1: Seq<int>,
    am0: Seq<int>, am1: Seq<int>, bm0: Seq<int>, bm1: Seq<int>, cm0: Seq<int>, cm1: Seq<int>, lm0: Seq<int>, lm1: Seq<int>,
    tx: Seq<int>, ty: Seq<int>, k0: int, k1: int, rows: int, mid: int, cols: int, ring: int, m: int, i: int, j: int,
)
    requires
        m > 0,
        ring > 0,
        ring % m == 0,
        0 <= i < rows,
        0 <= j < cols,
        0 <= mid,
        a0.len() == rows * mid && a1.len() == rows * mid && tx.len() == rows * mid,
        am0.len() == rows * mid && am1.len() == rows * mid,
        b0.len() == mid * cols && b1.len() == mid * cols && ty.len() == mid * cols,
        bm0.len() == mid * cols && bm1.len() == mid * cols,
        c0.len() == rows * cols && c1.len() == rows * cols && l0.len() == rows * cols && l1.len() == rows * cols,
        cm0.len() == rows * cols && cm1.len() == rows * cols && lm0.len() == rows * cols && lm1.len() == rows * cols,
        forall|e: int| 0 <= e < rows * mid ==> cong(#[trigger] am0[e] + am1[e], (k0 + k1) * (a0[e] + a1[e]), m),
        forall|e: int| 0 <= e < mid * cols ==> cong(#[trigger] bm0[e] + bm1[e], (k0 + k1) * (b0[e] + b1[e]), m),
        cong(cm0[i * cols + j] + cm1[i * cols + j], (k0 + k1) * (c0[i * cols + j] + c1[i * cols + j]), m),
        cong(lm0[i * cols + j] + lm1[i * cols + j], (k0 + k1) * (l0[i * cols + j] + l1[i * cols + j]), m),
    ensures
        cong(
            matmul_mac_share(am0, bm0, cm0, lm0, tx, ty, k0, rows, mid, cols, ring)[i * cols + j]
                + matmul_mac_share(am1, bm1, cm1, lm1, tx, ty, k1, rows, mid, cols, ring)[i * cols + j],
            (k0 + k1) * (matmul_share(a0, b0, c0, l0, tx, ty, rows, mid, cols, ring, true)[i * cols + j]
                + matmul_share(a1, b1, c1, l1, tx, ty, rows, mid, cols, ring, false)[i * cols + j]),
            m,
        ),
{
    let t = i * cols + j;
    let k = k0 + k1;
    crate::ring::lemma_index(i, j, rows, cols);
    lemma_row_col_range(rows, mid, cols, i, j);
    let txy = mat_mul(tx, ty, rows, mid, cols, ring);
    let am0y = mat_mul(am0, ty, rows, mid, cols, ring);
    let am1y = mat_mul(am1, ty, rows, mid, cols, ring);
    let xbm0 = mat_mul(tx, bm0, rows, mid, cols, ring);
    let xbm1 = mat_mul(tx, bm1, rows, mid, cols, ring);
    lemma_mat_mul_entry(tx, ty, rows, mid, cols, ring, i, j);
    lemma_mat_mul_entry(am0, ty, rows, mid, cols, ring, i, j);
    lemma_mat_mul_entry(am1, ty, rows, mid, cols, ring, i, j);
    lemma_mat_mul_entry(tx, bm0, rows, mid, cols, ring, i, j);
    lemma_mat_mul_entry(tx, bm1, rows, mid, cols, ring, i, j);
    lemma_mac_combine_cong(cm0, lm0, am0y, xbm0, txy, k0, ring, t);
    lemma_mac_combine_cong(cm1, lm1, am1y, xbm1, txy, k1, ring, t);
    let d_xy = dot(tx, ty, mid, cols, i, j, mid);
    let d_am0y = dot(am0, ty, mid, cols, i, j, mid);
    let d_am1y = dot(am1, ty, mid, cols, i, j, mid);
    let d_xbm0 = dot(tx, bm0, mid, cols, i, j, mid);
    let d_xbm1 = dot(tx, bm1, mid, cols, i, j, mid);
    lemma_cong_mod(d_xy, ring);
    lemma_cong_mod(d_am0y, ring);
    lemma_cong_mod(d_am1y, ring);
    lemma_cong_mod(d_xbm0, ring);
    lemma_cong_mod(d_xbm1, ring);
    // each MAC share, with the products taken over the integers
    lemma_cong(k0, k0, txy[t], d_xy, ring);
    lemma_cong(k0 * txy[t], k0 * d_xy, cm0[t], cm0[t], ring);
    lemma_cong(k0 * txy[t] + cm0[t], k0 * d_xy + cm0[t], lm0[t], lm0[t], ring);
    lemma_cong(k0 * txy[t] + cm0[t] + lm0[t], k0 * d_xy + cm0[t] + lm0[t], am0y[t], d_am0y, ring);
    lemma_cong(k0 * txy[t] + cm0[t] + lm0[t] - am0y[t], k0 * d_xy + cm0[t] + lm0[t] - d_am0y, xbm0[t], d_xbm0, ring);
    lemma_cong(k1, k1, txy[t], d_xy, ring);
    lemma_cong(k1 * txy[t], k1 * d_xy, cm1[t], cm1[t], ring);
    lemma_cong(k1 * txy[t] + cm1[t], k1 * d_xy + cm1[t], lm1[t], lm1[t], ring);
    lemma_cong(k1 * txy[t] + cm1[t] + lm1[t], k1 * d_xy + cm1[t] + lm1[t], am1y[t], d_am1y, ring);
    lemma_cong(k1 * txy[t] + cm1[t] + lm1[t] - am1y[t], k1 * d_xy + cm1[t] + lm1[t] - d_am1y, xbm1[t], d_xbm1, ring);
    let mac0 = matmul_mac_share(am0, bm0, cm0, lm0, tx, ty, k0, rows, mid, cols, ring)[t];
    let mac1 = matmul_mac_share(am1, bm1, cm1, lm1, tx, ty, k1, rows, mid, cols, ring)[t];
    let g0 = k0 * d_xy + cm0[t] + lm0[t] - d_am0y - d_xbm0;
    let g1 = k1 * d_xy + cm1[t] + lm1[t] - d_am1y - d_xbm1;
    lemma_cong(mac0, g0, mac1, g1, ring);
    // sum the MAC factors
    let am = pw_add(am0, am1);
    let bm = pw_add(bm0, bm1);
    assert forall|q: int| 0 <= q < mid implies #[trigger] am[i * mid + q] == am0[i * mid + q] + am1[i * mid + q] by {
        assert(0 <= i * mid + q < rows * mid);
    }
    assert forall|q: int| 0 <= q < mid implies #[trigger] bm[q * cols + j] == bm0[q * cols + j] + bm1[q * cols + j] by {
        assert(0 <= q * cols + j < mid * cols);
    }
    lemma_dot_add_left(am0, am1, am, ty, mid, cols, i, j, mid);
    lemma_dot_add_right(tx, bm0, bm1, bm, mid, cols, i, j, mid);
    let d_amy = dot(am, ty, mid, cols, i, j, mid);
    let d_xbm = dot(tx, bm, mid, cols, i, j, mid);
    let cm = cm0[t] + cm1[t];
    let lm = lm0[t] + lm1[t];
    assert(g0 + g1 == k * d_xy + cm + lm - d_amy - d_xbm) by (nonlinear_arith)
        requires
            g0 == k0 * d_xy + cm0[t] + lm0[t] - d_am0y - d_xbm0,
            g1 == k1 * d_xy + cm1[t] + lm1[t] - d_am1y - d_xbm1,
            k == k0 + k1,
            d_amy == d_am0y + d_am1y,
            d_xbm == d_xbm0 + d_xbm1,
            cm == cm0[t] + cm1[t],
            lm == lm0[t] + lm1[t],
    ;
    lemma_cong_divides(mac0 + mac1, g0 + g1, ring, m);
    // the MAC factors are k times the values, mod m
    let a = pw_add(a0, a1);
    let b = pw_add(b0, b1);
    let ka = Seq::new(a.len(), |e: int| k * a[e]);
    let kb = Seq::new(b.len(), |e: int| k * b[e]);
    assert forall|q: int| 0 <= q < mid implies #[trigger] ka[i * mid + q] == k * a[i * mid + q] by {
        assert(0 <= i * mid + q < rows * mid);
    }
    assert forall|q: int| 0 <= q < mid implies #[trigger] kb[q * cols + j] == k * b[q * cols + j] by {
        assert(0 <= q * cols + j < mid * cols);
    }
    assert forall|q: int| 0 <= q < mid implies #[trigger] (am[i * mid + q] % m) == ka[i * mid + q] % m by {
        let e = i * mid + q;
        assert(0 <= e < rows * mid);
        assert(cong(am0[e] + am1[e], k * (a0[e] + a1[e]), m));
    }
    assert forall|q: int| 0 <= q < mid implies #[trigger] (bm[q * cols + j] % m) == kb[q * cols + j] % m by {
        let e = q * cols + j;
        assert(0 <= e < mid * cols);
        assert(cong(bm0[e] + bm1[e], k * (b0[e] + b1[e]), m));
    }
    crate::ring::lemma_dot_mod(ka, am, ty, ty, mid, cols, i, j, mid, m);
    crate::ring::lemma_dot_mod(tx, tx, kb, bm, mid, cols, i, j, mid, m);
    crate::ring::lemma_dot_scale_left(a, ka, ty, k, mid, cols, i, j, mid);
    crate::ring::lemma_dot_scale_right(tx, b, kb, k, mid, cols, i, j, mid);
    let d_ay = dot(a, ty, mid, cols, i, j, mid);
    let d_xb = dot(tx, b, mid, cols, i, j, mid);
    let c = c0[t] + c1[t];
    let l = l0[t] + l1[t];
    lemma_mac_algebra(k, d_ay, d_xb, d_xy, c, l, d_amy, d_xbm, cm, lm, m);
    // the Delta_z shares
    lemma_mat_share_sum(a0, a1, b0, b1, c0, c1, l0, l1, tx, ty, rows, mid, cols, ring, i, j);
    let s0 = matmul_share(a0, b0, c0, l0, tx, ty, rows, mid, cols, ring, true)[t];
    let s1 = matmul_share(a1, b1, c1, l1, tx, ty, rows, mid, cols, ring, false)[t];
    let f = c + l - d_ay - d_xb + d_xy;
    lemma_cong_divides(s0 + s1, f, ring, m);
    lemma_cong(k, k, s0 + s1, f, m);
}
} // verus!
