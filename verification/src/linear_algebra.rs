//! Element-wise operations and products of row-major matrices over Z_{2^w}.
use crate::ring::{
    dot, lemma_index, lemma_index_split, lemma_mod_ops, mat_mul, min_len, seq_add, seq_add_const,
    seq_mul, seq_scale, seq_sub,
};
use crate::share::{modulus, two_64, values, ShareElement};
use nalgebra::DMatrix;
use std::num::Wrapping;
use vstd::prelude::*;

verus! {

pub fn matrix_add<T: ShareElement>(x: &[T], y: &[T]) -> (r: Vec<T>)
    ensures
        r@.len() == if x@.len() <= y@.len() { x@.len() } else { y@.len() },
        values(r@) == seq_add(values(x@), values(y@), modulus::<T>()),
{
    let n = if x.len() <= y.len() { x.len() } else { y.len() };
    let mut r: Vec<T> = Vec::with_capacity(n);
    for i in 0..n
        invariant
            n == min_len(values(x@), values(y@)),
            r@.len() == i,
            forall|j: int| 0 <= j < i ==> #[trigger] r@[j].value() == (x@[j].value() + y@[j].value()) % modulus::<T>(),
    {
        r.push(x[i].wrapping_add(y[i]));
    }
    assert(values(r@) =~= seq_add(values(x@), values(y@), modulus::<T>()));
    r
}

pub fn matrix_add_assign<T: ShareElement>(x: &mut Vec<T>, y: &[T])
    ensures
        final(x)@.len() == old(x)@.len(),
        values(final(x)@).subrange(0, min_len(values(old(x)@), values(y@)) as int) == seq_add(values(old(x)@), values(y@), modulus::<T>()),
        forall|j: int| min_len(values(old(x)@), values(y@)) <= j < old(x)@.len() ==> #[trigger] final(x)@[j] == old(x)@[j],
{
    let n = if x.len() <= y.len() { x.len() } else { y.len() };
    for i in 0..n
        invariant
            n == min_len(values(old(x)@), values(y@)),
            x@.len() == old(x)@.len(),
            forall|j: int| 0 <= j < i ==> #[trigger] x@[j].value() == (old(x)@[j].value() + y@[j].value()) % modulus::<T>(),
            forall|j: int| i <= j < x@.len() ==> #[trigger] x@[j] == old(x)@[j],
    {
        let v = x[i].wrapping_add(y[i]);
        x.set(i, v);
    }
    assert(values(x@).subrange(0, n as int) =~= seq_add(values(old(x)@), values(y@), modulus::<T>()));
}

pub fn matrix_add_constant<T: ShareElement>(x: &[T], constant: T) -> (r: Vec<T>)
    ensures
        r@.len() == x@.len(),
        values(r@) == seq_add_const(values(x@), constant.value(), modulus::<T>()),
{
    let n = x.len();
    let mut r: Vec<T> = Vec::with_capacity(n);
    for i in 0..n
        invariant
            n == x@.len(),
            r@.len() == i,
            forall|j: int| 0 <= j < i ==> #[trigger] r@[j].value() == (x@[j].value() + constant.value()) % modulus::<T>(),
    {
        r.push(x[i].wrapping_add(constant));
    }
    assert(values(r@) =~= seq_add_const(values(x@), constant.value(), modulus::<T>()));
    r
}

pub fn matrix_subtract<T: ShareElement>(x: &[T], y: &[T]) -> (r: Vec<T>)
    ensures
        r@.len() == if x@.len() <= y@.len() { x@.len() } else { y@.len() },
        values(r@) == seq_sub(values(x@), values(y@), modulus::<T>()),
{
    let n = if x.len() <= y.len() { x.len() } else { y.len() };
    let mut r: Vec<T> = Vec::with_capacity(n);
    for i in 0..n
        invariant
            n == min_len(values(x@), values(y@)),
            r@.len() == i,
            forall|j: int| 0 <= j < i ==> #[trigger] r@[j].value() == (x@[j].value() - y@[j].value()) % modulus::<T>(),
    {
        r.push(x[i].wrapping_sub(y[i]));
    }
    assert(values(r@) =~= seq_sub(values(x@), values(y@), modulus::<T>()));
    r
}

pub fn matrix_subtract_assign<T: ShareElement>(x: &mut Vec<T>, y: &[T])
    ensures
        final(x)@.len() == old(x)@.len(),
        values(final(x)@).subrange(0, min_len(values(old(x)@), values(y@)) as int) == seq_sub(values(old(x)@), values(y@), modulus::<T>()),
        forall|j: int| min_len(values(old(x)@), values(y@)) <= j < old(x)@.len() ==> #[trigger] final(x)@[j] == old(x)@[j],
{
    let n = if x.len() <= y.len() { x.len() } else { y.len() };
    for i in 0..n
        invariant
            n == min_len(values(old(x)@), values(y@)),
            x@.len() == old(x)@.len(),
            forall|j: int| 0 <= j < i ==> #[trigger] x@[j].value() == (old(x)@[j].value() - y@[j].value()) % modulus::<T>(),
            forall|j: int| i <= j < x@.len() ==> #[trigger] x@[j] == old(x)@[j],
    {
        let v = x[i].wrapping_sub(y[i]);
        x.set(i, v);
    }
    assert(values(x@).subrange(0, n as int) =~= seq_sub(values(old(x)@), values(y@), modulus::<T>()));
}

pub fn matrix_scalar<T: ShareElement>(x: &[T], scalar: T) -> (r: Vec<T>)
    ensures
        r@.len() == x@.len(),
        values(r@) == seq_scale(values(x@), scalar.value(), modulus::<T>()),
{
    let n = x.len();
    let mut r: Vec<T> = Vec::with_capacity(n);
    for i in 0..n
        invariant
            n == x@.len(),
            r@.len() == i,
            forall|j: int| 0 <= j < i ==> #[trigger] r@[j].value() == (scalar.value() * x@[j].value()) % modulus::<T>(),
    {
        r.push(scalar.wrapping_mul(x[i]));
    }
    assert(values(r@) =~= seq_scale(values(x@), scalar.value(), modulus::<T>()));
    r
}

pub fn matrix_scalar_assign<T: ShareElement>(x: &mut Vec<T>, scalar: T)
    ensures
        final(x)@.len() == old(x)@.len(),
        values(final(x)@) == seq_scale(values(old(x)@), scalar.value(), modulus::<T>()),
{
    let n = x.len();
    for i in 0..n
        invariant
            n == old(x)@.len(),
            x@.len() == n,
            forall|j: int| 0 <= j < i ==> #[trigger] x@[j].value() == (scalar.value() * old(x)@[j].value()) % modulus::<T>(),
            forall|j: int| i <= j < n ==> #[trigger] x@[j] == old(x)@[j],
    {
        let v = scalar.wrapping_mul(x[i]);
        x.set(i, v);
    }
    assert(values(x@) =~= seq_scale(values(old(x)@), scalar.value(), modulus::<T>()));
}

pub fn matrix_elem_multiply<T: ShareElement>(x: &[T], y: &[T]) -> (r: Vec<T>)
    ensures
        r@.len() == if x@.len() <= y@.len() { x@.len() } else { y@.len() },
        values(r@) == seq_mul(values(x@), values(y@), modulus::<T>()),
{
    let n = if x.len() <= y.len() { x.len() } else { y.len() };
    let mut r: Vec<T> = Vec::with_capacity(n);
    for i in 0..n
        invariant
            n == min_len(values(x@), values(y@)),
            r@.len() == i,
            forall|j: int| 0 <= j < i ==> #[trigger] r@[j].value() == (x@[j].value() * y@[j].value()) % modulus::<T>(),
    {
        r.push(x[i].wrapping_mul(y[i]));
    }
    assert(values(r@) =~= seq_mul(values(x@), values(y@), modulus::<T>()));
    r
}

/// The product of two u64 matrices in `nalgebra`, with wrapping arithmetic:
/// `DMatrix::from_row_slice` on `Wrapping<u64>` elements, `*`, and the
/// entries read back row by row. The contract claims that nalgebra computes
/// the matrix product, here modulo 2^64 since the entries wrap.
#[verifier::external_body]
fn nalgebra_multiply_u64(lhs: &[u64], rhs: &[u64], dim_row: usize, dim_mid: usize, dim_col: usize) -> (r: Vec<u64>)
    requires
        lhs@.len() == dim_row * dim_mid,
        rhs@.len() == dim_mid * dim_col,
        dim_row * dim_col <= usize::MAX,
    ensures
        r@.len() == dim_row * dim_col,
        values(r@) == mat_mul(values(lhs@), values(rhs@), dim_row as int, dim_mid as int, dim_col as int, two_64()),
{
    let a: Vec<Wrapping<u64>> = lhs.iter().map(|&v| Wrapping(v)).collect();
    let b: Vec<Wrapping<u64>> = rhs.iter().map(|&v| Wrapping(v)).collect();
    let prod = DMatrix::from_row_slice(dim_row, dim_mid, &a) * DMatrix::from_row_slice(dim_mid, dim_col, &b);
    prod.transpose().iter().map(|w| w.0).collect()
}

/// Row `i` of the product: out[j] = sum over k of lhs[i][k] * rhs[k][j] in Z_{2^w}.
pub fn matrix_multiply_row<T: ShareElement>(lhs: &[T], rhs: &[T], i: usize, dim_mid: usize, dim_col: usize) -> (r: Vec<T>)
    requires
        (i + 1) * dim_mid <= lhs@.len(),
        dim_mid * dim_col <= rhs@.len(),
    ensures
        r@.len() == dim_col,
        forall|j: int| 0 <= j < dim_col ==> #[trigger] r@[j].value() == dot(values(lhs@), values(rhs@), dim_mid as int, dim_col as int, i as int, j, dim_mid as int) % modulus::<T>(),
{
    let mut out: Vec<T> = Vec::with_capacity(dim_col);
    for j in 0..dim_col
        invariant
            out@.len() == j,
            forall|jj: int| 0 <= jj < j ==> #[trigger] out@[jj].value() == 0,
    {
        out.push(T::zero());
    }
    let ghost m = modulus::<T>();
    proof {
        vstd::arithmetic::power2::lemma_pow2_pos(T::width());
        assert forall|jj: int| 0 <= jj < dim_col implies #[trigger] out@[jj].value() == dot(values(lhs@), values(rhs@), dim_mid as int, dim_col as int, i as int, jj, 0) % m by {
            assert(out@[jj].value() == 0);
            vstd::arithmetic::div_mod::lemma_small_mod(0, m as nat);
        }
    }
    let lhs_len = lhs.len();
    let rhs_len = rhs.len();
    for k in 0..dim_mid
        invariant
            (i + 1) * dim_mid <= lhs@.len(),
            dim_mid * dim_col <= rhs@.len(),
            lhs_len == lhs@.len(),
            rhs_len == rhs@.len(),
            m == modulus::<T>(),
            m > 0,
            out@.len() == dim_col,
            forall|jj: int| 0 <= jj < dim_col ==> #[trigger] out@[jj].value() == dot(values(lhs@), values(rhs@), dim_mid as int, dim_col as int, i as int, jj, k as int) % m,
    {
        assert(i * dim_mid + k < (i + 1) * dim_mid) by (nonlinear_arith)
            requires
                k < dim_mid,
        ;
        assert(i * dim_mid + k < lhs_len);
        let a = lhs[i * dim_mid + k];
        let ghost out_k = out@;
        for j in 0..dim_col
            invariant
                (i + 1) * dim_mid <= lhs@.len(),
                dim_mid * dim_col <= rhs@.len(),
                lhs_len == lhs@.len(),
                rhs_len == rhs@.len(),
                k < dim_mid,
                i * dim_mid + k < lhs@.len(),
                m == modulus::<T>(),
                m > 0,
                a == lhs@[i * dim_mid + k],
                out@.len() == dim_col,
                out_k.len() == dim_col,
                forall|jj: int| 0 <= jj < dim_col ==> #[trigger] out_k[jj].value() == dot(values(lhs@), values(rhs@), dim_mid as int, dim_col as int, i as int, jj, k as int) % m,
                forall|jj: int| 0 <= jj < j ==> #[trigger] out@[jj].value() == dot(values(lhs@), values(rhs@), dim_mid as int, dim_col as int, i as int, jj, k + 1) % m,
                forall|jj: int| j <= jj < dim_col ==> #[trigger] out@[jj] == out_k[jj],
        {
            assert(k * dim_col + j < dim_mid * dim_col) by (nonlinear_arith)
                requires
                    k < dim_mid,
                    j < dim_col,
            ;
            assert(k * dim_col + j < rhs_len);
            let b = rhs[k * dim_col + j];
            let prod = a.wrapping_mul(b);
            let v = out[j].wrapping_add(prod);
            proof {
                let d = dot(values(lhs@), values(rhs@), dim_mid as int, dim_col as int, i as int, j as int, k as int);
                lemma_mod_ops(d, a.value() * b.value(), m);
                lemma_mod_ops(a.value() * b.value(), d % m, m);
                assert(values(lhs@)[i * dim_mid + k] == a.value());
                assert(values(rhs@)[k * dim_col + j] == b.value());
            }
            out.set(j, v);
        }
    }
    out
}

/// The row-by-row product, one output row at a time.
pub fn matrix_multiply_naive<T: ShareElement>(lhs: &[T], rhs: &[T], dim_row: usize, dim_mid: usize, dim_col: usize) -> (r: Vec<T>)
    requires
        lhs@.len() >= dim_row * dim_mid,
        rhs@.len() >= dim_mid * dim_col,
        dim_row * dim_col <= usize::MAX,
    ensures
        r@.len() == dim_row * dim_col,
        values(r@) == mat_mul(values(lhs@), values(rhs@), dim_row as int, dim_mid as int, dim_col as int, modulus::<T>()),
{
    let ghost m = modulus::<T>();
    let ghost a = values(lhs@);
    let ghost b = values(rhs@);
    let mut out: Vec<T> = Vec::with_capacity(dim_row * dim_col);
    assert(out@.len() == 0 * dim_col);
    for i in 0..dim_row
        invariant
            lhs@.len() >= dim_row * dim_mid,
            rhs@.len() >= dim_mid * dim_col,
            dim_row * dim_col <= usize::MAX,
            m == modulus::<T>(),
            a == values(lhs@),
            b == values(rhs@),
            out@.len() == i * dim_col,
            forall|ii: int, jj: int| 0 <= ii < i && 0 <= jj < dim_col ==> #[trigger] out@[ii * dim_col + jj].value() == dot(a, b, dim_mid as int, dim_col as int, ii, jj, dim_mid as int) % m,
    {
        assert((i + 1) * dim_mid <= dim_row * dim_mid) by (nonlinear_arith)
            requires
                i < dim_row,
        ;
        let row = matrix_multiply_row(lhs, rhs, i, dim_mid, dim_col);
        let ghost before = out@;
        let mut j: usize = 0;
        while j < dim_col
            invariant
                lhs@.len() >= dim_row * dim_mid,
                rhs@.len() >= dim_mid * dim_col,
                i < dim_row,
                m == modulus::<T>(),
                a == values(lhs@),
                b == values(rhs@),
                row@.len() == dim_col,
                forall|jj: int| 0 <= jj < dim_col ==> #[trigger] row@[jj].value() == dot(a, b, dim_mid as int, dim_col as int, i as int, jj, dim_mid as int) % m,
                before.len() == i * dim_col,
                j <= dim_col,
                out@.len() == i * dim_col + j,
                forall|t: int| 0 <= t < i * dim_col ==> #[trigger] out@[t] == before[t],
                forall|jj: int| 0 <= jj < j ==> #[trigger] out@[i * dim_col + jj] == row@[jj],
            decreases dim_col - j,
        {
            out.push(row[j]);
            j = j + 1;
        }
        assert((i + 1) * dim_col == i * dim_col + dim_col) by (nonlinear_arith);
        assert forall|ii: int, jj: int| 0 <= ii < i + 1 && 0 <= jj < dim_col implies #[trigger] out@[ii * dim_col + jj].value() == dot(a, b, dim_mid as int, dim_col as int, ii, jj, dim_mid as int) % m by {
            if ii < i {
                lemma_index(ii, jj, i as int, dim_col as int);
                assert(out@[ii * dim_col + jj] == before[ii * dim_col + jj]);
            } else {
                assert(ii == i);
            }
        }
    }
    assert(dim_row * dim_col == out@.len());
    assert forall|t: int| 0 <= t < out@.len() implies #[trigger] values(out@)[t] == mat_mul(a, b, dim_row as int, dim_mid as int, dim_col as int, m)[t] by {
        lemma_index_split(t, dim_row as int, dim_col as int);
        let ii = t / dim_col as int;
        let jj = t % dim_col as int;
        assert(out@[ii * dim_col + jj].value() == dot(a, b, dim_mid as int, dim_col as int, ii, jj, dim_mid as int) % m);
    }
    assert(values(out@) =~= mat_mul(a, b, dim_row as int, dim_mid as int, dim_col as int, m));
    out
}

/// The matrix product lhs (dim_row x dim_mid) * rhs (dim_mid x dim_col) in
/// Z_{2^w}; 64-bit elements go through nalgebra, the others through the
/// row-by-row product, which also takes longer slices and uses their
/// leading entries.
pub fn matrix_multiply<T: ShareElement>(lhs: &[T], rhs: &[T], dim_row: usize, dim_mid: usize, dim_col: usize) -> (r: Vec<T>)
    requires
        lhs@.len() >= dim_row * dim_mid,
        rhs@.len() >= dim_mid * dim_col,
        T::width() == 64 ==> lhs@.len() == dim_row * dim_mid && rhs@.len() == dim_mid * dim_col,
        dim_row * dim_col <= usize::MAX,
    ensures
        r@.len() == dim_row * dim_col,
        values(r@) == mat_mul(values(lhs@), values(rhs@), dim_row as int, dim_mid as int, dim_col as int, modulus::<T>()),
{
    let z = T::zero();
    proof {
        T::lemma_value_bounds(z);
    }
    if T::byte_size() == 8 {
        let lhs_u64 = to_u64_vec(lhs);
        let rhs_u64 = to_u64_vec(rhs);
        let prod = nalgebra_multiply_u64(lhs_u64.as_slice(), rhs_u64.as_slice(), dim_row, dim_mid, dim_col);
        // The product nalgebra gives is kept only where it is the verified
        // row-by-row product.
        let checked = matrix_multiply_naive(lhs_u64.as_slice(), rhs_u64.as_slice(), dim_row, dim_mid, dim_col);
        let chosen = if same_entries(prod.as_slice(), checked.as_slice()) { prod } else { checked };
        let r = from_u64_vec::<T>(chosen.as_slice());
        proof {
            assert(chosen@ == checked@);
            assert(values(lhs@) == values(lhs_u64@));
            assert(values(rhs@) == values(rhs_u64@));
            assert(modulus::<T>() == modulus::<u64>());
        }
        return r;
    }
    matrix_multiply_naive(lhs, rhs, dim_row, dim_mid, dim_col)
}

/// The two vectors hold the same entries.
fn same_entries(a: &[u64], b: &[u64]) -> (r: bool)
    ensures
        r == (a@ == b@),
{
    if a.len() != b.len() {
        return false;
    }
    let n = a.len();
    for i in 0..n
        invariant
            n == a@.len(),
            n == b@.len(),
            forall|j: int| 0 <= j < i ==> a@[j] == b@[j],
    {
        if a[i] != b[i] {
            return false;
        }
    }
    assert(a@ =~= b@);
    true
}

/// 64-bit elements as u64.
fn to_u64_vec<T: ShareElement>(x: &[T]) -> (r: Vec<u64>)
    requires
        T::width() == 64,
    ensures
        values(r@) == values(x@),
        r@.len() == x@.len(),
{
    let n = x.len();
    let mut r: Vec<u64> = Vec::with_capacity(n);
    for i in 0..n
        invariant
            n == x@.len(),
            T::width() == 64,
            r@.len() == i,
            forall|j: int| 0 <= j < i ==> #[trigger] r@[j] as int == x@[j].value(),
    {
        let v = x[i].to_u128();
        proof {
            T::lemma_value_bounds(x@[i as int]);
        }
        r.push(v as u64);
    }
    assert(values(r@) =~= values(x@));
    r
}

/// u64 values as 64-bit elements.
fn from_u64_vec<T: ShareElement>(x: &[u64]) -> (r: Vec<T>)
    requires
        T::width() == 64,
    ensures
        values(r@) == values(x@),
        r@.len() == x@.len(),
{
    let n = x.len();
    let mut r: Vec<T> = Vec::with_capacity(n);
    for i in 0..n
        invariant
            n == x@.len(),
            T::width() == 64,
            r@.len() == i,
            forall|j: int| 0 <= j < i ==> #[trigger] r@[j].value() == x@[j] as int,
    {
        let v = T::from_u128(x[i] as u128);
        proof {
            T::lemma_value_bounds(v);
            vstd::arithmetic::div_mod::lemma_small_mod(x@[i as int] as nat, two_64() as nat);
        }
        r.push(v);
    }
    assert(values(r@) =~= values(x@));
    r
}

/// Law (one product, two ways): two results whose values are both the
/// product of lhs and rhs in Z_{2^w} are the same vector; so
/// `matrix_multiply` (through nalgebra for 64-bit elements) and
/// `matrix_multiply_naive` agree wherever both apply.
pub proof fn lemma_products_agree<T: ShareElement>(r1: Seq<T>, r2: Seq<T>, lhs: Seq<T>, rhs: Seq<T>, dim_row: int, dim_mid: int, dim_col: int)
    requires
        values(r1) == mat_mul(values(lhs), values(rhs), dim_row, dim_mid, dim_col, modulus::<T>()),
        values(r2) == mat_mul(values(lhs), values(rhs), dim_row, dim_mid, dim_col, modulus::<T>()),
    ensures
        r1 == r2,
{
    assert(r1.len() == values(r1).len() && r2.len() == values(r2).len());
    assert forall|k: int| 0 <= k < r1.len() implies #[trigger] r1[k] == r2[k] by {
        assert(values(r1)[k] == values(r2)[k]);
        assert(values(r1)[k] == r1[k].value());
        assert(values(r2)[k] == r2[k].value());
        T::lemma_value_injective(r1[k], r2[k]);
    }
    assert(r1 =~= r2);
}

} // verus!
