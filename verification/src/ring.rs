//! Vectors and row-major matrices over Z_m, as sequences of integers.
use vstd::arithmetic::div_mod::{
    lemma_add_mod_noop, lemma_fundamental_div_mod_converse, lemma_mod_bound, lemma_mod_twice,
    lemma_mul_mod_noop_left, lemma_mul_mod_noop_right, lemma_sub_mod_noop,
};
use vstd::arithmetic::mul::{
    lemma_mul_is_associative, lemma_mul_is_commutative, lemma_mul_is_distributive_add,
    lemma_mul_is_distributive_add_other_way, lemma_mul_is_distributive_sub,
    lemma_mul_is_distributive_sub_other_way,
};
use vstd::prelude::*;

verus! {

pub open spec fn min_len(x: Seq<int>, y: Seq<int>) -> nat {
    if x.len() <= y.len() {
        x.len()
    } else {
        y.len()
    }
}

/// Element-wise x + y in Z_m (as long as the shorter of the two).
pub open spec fn seq_add(x: Seq<int>, y: Seq<int>, m: int) -> Seq<int> {
    Seq::new(min_len(x, y), |i: int| (x[i] + y[i]) % m)
}

/// Element-wise x - y in Z_m (as long as the shorter of the two).
pub open spec fn seq_sub(x: Seq<int>, y: Seq<int>, m: int) -> Seq<int> {
    Seq::new(min_len(x, y), |i: int| (x[i] - y[i]) % m)
}

/// Element-wise x * y in Z_m (as long as the shorter of the two).
pub open spec fn seq_mul(x: Seq<int>, y: Seq<int>, m: int) -> Seq<int> {
    Seq::new(min_len(x, y), |i: int| (x[i] * y[i]) % m)
}

/// x + c for every element, in Z_m.
pub open spec fn seq_add_const(x: Seq<int>, c: int, m: int) -> Seq<int> {
    Seq::new(x.len(), |i: int| (x[i] + c) % m)
}

/// s * x for every element, in Z_m.
pub open spec fn seq_scale(x: Seq<int>, s: int, m: int) -> Seq<int> {
    Seq::new(x.len(), |i: int| (s * x[i]) % m)
}

/// sum over k < upto of a[i][k] * b[k][j], for row-major a (mid columns) and b
/// (cols columns), over the integers.
pub open spec fn dot(a: Seq<int>, b: Seq<int>, mid: int, cols: int, i: int, j: int, upto: int) -> int
    decreases upto,
{
    if upto <= 0 {
        0
    } else {
        dot(a, b, mid, cols, i, j, upto - 1) + a[i * mid + (upto - 1)] * b[(upto - 1) * cols + j]
    }
}

/// The product of the rows x mid matrix a and the mid x cols matrix b in Z_m, row-major.
pub open spec fn mat_mul(a: Seq<int>, b: Seq<int>, rows: int, mid: int, cols: int, m: int) -> Seq<int> {
    Seq::new(
        (rows * cols) as nat,
        |t: int| dot(a, b, mid, cols, t / cols, t % cols, mid) % m,
    )
}

/// Entry (i, j) of a row-major matrix with `cols` columns sits at i * cols + j.
pub proof fn lemma_index(i: int, j: int, rows: int, cols: int)
    requires
        0 <= i < rows,
        0 <= j < cols,
    ensures
        0 <= i * cols + j < rows * cols,
        (i * cols + j) / cols == i,
        (i * cols + j) % cols == j,
{
    assert(i * cols + j < rows * cols) by (nonlinear_arith)
        requires
            0 <= i < rows,
            0 <= j < cols,
    ;
    assert(0 <= i * cols) by (nonlinear_arith)
        requires
            0 <= i,
            0 <= j < cols,
    ;
    lemma_fundamental_div_mod_converse(i * cols + j, cols, i, j);
}

/// Each index below rows * cols is the entry (t / cols, t % cols).
pub proof fn lemma_index_split(t: int, rows: int, cols: int)
    requires
        0 <= t < rows * cols,
        0 < cols,
    ensures
        0 <= t / cols < rows,
        0 <= t % cols < cols,
        t == (t / cols) * cols + t % cols,
{
    vstd::arithmetic::div_mod::lemma_fundamental_div_mod(t, cols);
    lemma_mod_bound(t, cols);
    vstd::arithmetic::div_mod::lemma_div_pos_is_pos(t, cols);
    assert((t / cols) * cols == cols * (t / cols)) by (nonlinear_arith);
    if t / cols >= rows {
        assert((t / cols) * cols >= rows * cols) by (nonlinear_arith)
            requires
                t / cols >= rows,
                cols > 0,
        ;
    }
}

/// The matrix product entry (i, j).
pub proof fn lemma_mat_mul_entry(a: Seq<int>, b: Seq<int>, rows: int, mid: int, cols: int, m: int, i: int, j: int)
    requires
        0 <= i < rows,
        0 <= j < cols,
    ensures
        mat_mul(a, b, rows, mid, cols, m).len() == rows * cols,
        mat_mul(a, b, rows, mid, cols, m)[i * cols + j] == dot(a, b, mid, cols, i, j, mid) % m,
{
    lemma_index(i, j, rows, cols);
}

/// (x mod m) + y and x + y agree modulo m, and so on: the ring operations
/// commute with reduction.
pub proof fn lemma_mod_ops(x: int, y: int, m: int)
    requires
        m > 0,
    ensures
        ((x % m) + y) % m == (x + y) % m,
        (x + (y % m)) % m == (x + y) % m,
        ((x % m) - y) % m == (x - y) % m,
        (x - (y % m)) % m == (x - y) % m,
        ((x % m) * y) % m == (x * y) % m,
        (x * (y % m)) % m == (x * y) % m,
        (x % m) % m == x % m,
{
    lemma_add_mod_noop(x, y, m);
    lemma_add_mod_noop(x % m, y, m);
    lemma_mod_twice(x, m);
    lemma_mod_twice(y, m);
    lemma_add_mod_noop(x, y % m, m);
    lemma_sub_mod_noop(x, y, m);
    lemma_sub_mod_noop(x % m, y, m);
    lemma_sub_mod_noop(x, y % m, m);
    lemma_mul_mod_noop_left(x, y, m);
    lemma_mul_mod_noop_right(x, y, m);
}

/// dot distributes over a sum of left factors.
pub proof fn lemma_dot_add_left(a1: Seq<int>, a2: Seq<int>, a: Seq<int>, b: Seq<int>, mid: int, cols: int, i: int, j: int, upto: int)
    requires
        forall|k: int| 0 <= k < upto ==> #[trigger] a[i * mid + k] == a1[i * mid + k] + a2[i * mid + k],
    ensures
        dot(a, b, mid, cols, i, j, upto) == dot(a1, b, mid, cols, i, j, upto) + dot(a2, b, mid, cols, i, j, upto),
    decreases upto,
{
    if upto > 0 {
        lemma_dot_add_left(a1, a2, a, b, mid, cols, i, j, upto - 1);
        let k = upto - 1;
        lemma_mul_is_distributive_add_other_way(b[k * cols + j], a1[i * mid + k], a2[i * mid + k]);
    }
}

/// dot distributes over a sum of right factors.
pub proof fn lemma_dot_add_right(a: Seq<int>, b1: Seq<int>, b2: Seq<int>, b: Seq<int>, mid: int, cols: int, i: int, j: int, upto: int)
    requires
        forall|k: int| 0 <= k < upto ==> #[trigger] b[k * cols + j] == b1[k * cols + j] + b2[k * cols + j],
    ensures
        dot(a, b, mid, cols, i, j, upto) == dot(a, b1, mid, cols, i, j, upto) + dot(a, b2, mid, cols, i, j, upto),
    decreases upto,
{
    if upto > 0 {
        lemma_dot_add_right(a, b1, b2, b, mid, cols, i, j, upto - 1);
        let k = upto - 1;
        lemma_mul_is_distributive_add(a[i * mid + k], b1[k * cols + j], b2[k * cols + j]);
    }
}

/// dot with a left factor scaled by s.
pub proof fn lemma_dot_scale_left(a1: Seq<int>, a: Seq<int>, b: Seq<int>, s: int, mid: int, cols: int, i: int, j: int, upto: int)
    requires
        forall|k: int| 0 <= k < upto ==> #[trigger] a[i * mid + k] == s * a1[i * mid + k],
    ensures
        dot(a, b, mid, cols, i, j, upto) == s * dot(a1, b, mid, cols, i, j, upto),
    decreases upto,
{
    if upto > 0 {
        lemma_dot_scale_left(a1, a, b, s, mid, cols, i, j, upto - 1);
        let k = upto - 1;
        lemma_mul_is_associative(s, a1[i * mid + k], b[k * cols + j]);
        lemma_mul_is_distributive_add(s, dot(a1, b, mid, cols, i, j, upto - 1), a1[i * mid + k] * b[k * cols + j]);
    }
}

/// dot with a right factor scaled by s.
pub proof fn lemma_dot_scale_right(a: Seq<int>, b1: Seq<int>, b: Seq<int>, s: int, mid: int, cols: int, i: int, j: int, upto: int)
    requires
        forall|k: int| 0 <= k < upto ==> #[trigger] b[k * cols + j] == s * b1[k * cols + j],
    ensures
        dot(a, b, mid, cols, i, j, upto) == s * dot(a, b1, mid, cols, i, j, upto),
    decreases upto,
{
    if upto > 0 {
        lemma_dot_scale_right(a, b1, b, s, mid, cols, i, j, upto - 1);
        let k = upto - 1;
        let x = a[i * mid + k];
        let y = b1[k * cols + j];
        assert(x * (s * y) == s * (x * y)) by (nonlinear_arith);
        lemma_mul_is_distributive_add(s, dot(a, b1, mid, cols, i, j, upto - 1), x * y);
    }
}

/// dot only depends on the residues of its factors modulo m.
pub proof fn lemma_dot_mod(a1: Seq<int>, a: Seq<int>, b1: Seq<int>, b: Seq<int>, mid: int, cols: int, i: int, j: int, upto: int, m: int)
    requires
        m > 0,
        forall|k: int| 0 <= k < upto ==> #[trigger] (a[i * mid + k] % m) == a1[i * mid + k] % m,
        forall|k: int| 0 <= k < upto ==> #[trigger] (b[k * cols + j] % m) == b1[k * cols + j] % m,
    ensures
        dot(a, b, mid, cols, i, j, upto) % m == dot(a1, b1, mid, cols, i, j, upto) % m,
    decreases upto,
{
    if upto > 0 {
        lemma_dot_mod(a1, a, b1, b, mid, cols, i, j, upto - 1, m);
        let k = upto - 1;
        let x = a[i * mid + k];
        let y = b[k * cols + j];
        let x1 = a1[i * mid + k];
        let y1 = b1[k * cols + j];
        assert(x % m == x1 % m);
        assert(y % m == y1 % m);
        lemma_mul_mod_noop_left(x, y, m);
        lemma_mul_mod_noop_right(x % m, y, m);
        lemma_mul_mod_noop_left(x1, y1, m);
        lemma_mul_mod_noop_right(x1 % m, y1, m);
        lemma_add_mod_noop(dot(a, b, mid, cols, i, j, upto - 1), x * y, m);
        lemma_add_mod_noop(dot(a1, b1, mid, cols, i, j, upto - 1), x1 * y1, m);
    }
}


/// x and y agree modulo m.
pub open spec fn cong(x: int, y: int, m: int) -> bool {
    x % m == y % m
}

/// Congruence modulo m is kept by +, - and *, and x % m is congruent to x.
pub proof fn lemma_cong(x1: int, y1: int, x2: int, y2: int, m: int)
    requires
        m > 0,
        cong(x1, y1, m),
        cong(x2, y2, m),
    ensures
        cong(x1 + x2, y1 + y2, m),
        cong(x1 - x2, y1 - y2, m),
        cong(x1 * x2, y1 * y2, m),
        cong(x1 % m, x1, m),
{
    lemma_add_mod_noop(x1, x2, m);
    lemma_add_mod_noop(y1, y2, m);
    lemma_sub_mod_noop(x1, x2, m);
    lemma_sub_mod_noop(y1, y2, m);
    vstd::arithmetic::div_mod::lemma_mul_mod_noop(x1, x2, m);
    vstd::arithmetic::div_mod::lemma_mul_mod_noop(y1, y2, m);
    lemma_mod_twice(x1, m);
}

/// Congruence modulo a multiple of m gives congruence modulo m.
pub proof fn lemma_cong_divides(x: int, y: int, big: int, m: int)
    requires
        m > 0,
        big > 0,
        big % m == 0,
        cong(x, y, big),
    ensures
        cong(x, y, m),
{
    let k = big / m;
    vstd::arithmetic::div_mod::lemma_fundamental_div_mod(big, m);
    assert(big == m * k);
    assert(k > 0) by (nonlinear_arith)
        requires
            big == m * k,
            big > 0,
            m > 0,
    ;
    vstd::arithmetic::div_mod::lemma_mod_mod(x, m, k);
    vstd::arithmetic::div_mod::lemma_mod_mod(y, m, k);
}

/// x % m is congruent to x.
pub proof fn lemma_cong_mod(x: int, m: int)
    requires
        m > 0,
    ensures
        cong(x % m, x, m),
{
    lemma_mod_twice(x, m);
}

/// The exact (unreduced) element-wise sum.
pub open spec fn pw_add(x: Seq<int>, y: Seq<int>) -> Seq<int> {
    Seq::new(x.len(), |i: int| x[i] + y[i])
}

/// The exact (unreduced) element-wise difference.
pub open spec fn pw_sub(x: Seq<int>, y: Seq<int>) -> Seq<int> {
    Seq::new(x.len(), |i: int| x[i] - y[i])
}

/// dot is bilinear: the product of two differences expands into four products.
pub proof fn lemma_dot_sub_both(x1: Seq<int>, x2: Seq<int>, x: Seq<int>, y1: Seq<int>, y2: Seq<int>, y: Seq<int>, mid: int, cols: int, i: int, j: int, upto: int)
    requires
        forall|k: int| 0 <= k < upto ==> #[trigger] x[i * mid + k] == x1[i * mid + k] - x2[i * mid + k],
        forall|k: int| 0 <= k < upto ==> #[trigger] y[k * cols + j] == y1[k * cols + j] - y2[k * cols + j],
    ensures
        dot(x, y, mid, cols, i, j, upto) == dot(x1, y1, mid, cols, i, j, upto) - dot(x1, y2, mid, cols, i, j, upto)
            - dot(x2, y1, mid, cols, i, j, upto) + dot(x2, y2, mid, cols, i, j, upto),
    decreases upto,
{
    if upto > 0 {
        lemma_dot_sub_both(x1, x2, x, y1, y2, y, mid, cols, i, j, upto - 1);
        let k = upto - 1;
        let a1 = x1[i * mid + k];
        let a2 = x2[i * mid + k];
        let b1 = y1[k * cols + j];
        let b2 = y2[k * cols + j];
        assert((a1 - a2) * (b1 - b2) == a1 * b1 - a1 * b2 - a2 * b1 + a2 * b2) by (nonlinear_arith);
    }
}
} // verus!
