//! The comparison of a public value with an XOR-shared one, bit by bit: the
//! carry out of Delta + (not lambda) + 1 is the bit [Delta >= lambda].
use crate::carry::{fold_g, rows, xor_row};
use crate::share::{bit_of, ShareElement};
use vstd::arithmetic::power2::pow2;
use vstd::prelude::*;

verus! {

/// The low `w` bits of an integer, least significant first.
pub open spec fn bits_of(v: int, w: int) -> Seq<bool> {
    Seq::new(w as nat, |j: int| bit_of(v, j as nat))
}

/// The integer that the first n bits stand for.
pub open spec fn bits_value(b: Seq<bool>, n: int) -> int
    decreases n,
{
    if n <= 0 {
        0
    } else {
        bits_value(b, n - 1) + if b[n - 1] {
            pow2((n - 1) as nat) as int
        } else {
            0
        }
    }
}

/// Every bit negated.
pub open spec fn not_row(x: Seq<bool>) -> Seq<bool> {
    Seq::new(x.len(), |j: int| !x[j])
}

/// The clear propagate bits of the sum a + b.
pub open spec fn add_p(a: Seq<bool>, b: Seq<bool>) -> Seq<bool> {
    Seq::new(a.len(), |j: int| a[j] != b[j])
}

/// The clear generate bits of the sum a + b + c_in, with the carry in folded
/// into position 0.
pub open spec fn add_g(a: Seq<bool>, b: Seq<bool>, c_in: bool) -> Seq<bool> {
    Seq::new(
        a.len(),
        |j: int|
            if j == 0 {
                (a[0] && b[0]) != (c_in && (a[0] != b[0]))
            } else {
                a[j] && b[j]
            },
    )
}

/// The operand bits of a party: a from the public values (p_int), b from
/// the party's boolean shares (s_int), negated by party 0, `num_bits` bits each.
pub fn bit_lt_operands<T: ShareElement>(p_int: &[T], s_int: &[T], my_id: usize) -> (r: (Vec<Vec<bool>>, Vec<Vec<bool>>))
    requires
        p_int@.len() >= s_int@.len(),
    ensures
        r.0@.len() == s_int@.len(),
        r.1@.len() == s_int@.len(),
        forall|i: int| 0 <= i < s_int@.len() ==> #[trigger] rows(r.0@)[i] == bits_of(p_int@[i].value(), T::width() as int),
        forall|i: int| 0 <= i < s_int@.len() ==> #[trigger] rows(r.1@)[i] == (if my_id == 0 {
            not_row(bits_of(s_int@[i].value(), T::width() as int))
        } else {
            bits_of(s_int@[i].value(), T::width() as int)
        }),
{
    let num_bits = T::bit_count();
    let n = s_int.len();
    let mut a_: Vec<Vec<bool>> = Vec::with_capacity(n);
    let mut b_: Vec<Vec<bool>> = Vec::with_capacity(n);
    for i in 0..n
        invariant
            n == s_int@.len(),
            p_int@.len() >= n,
            num_bits == T::width(),
            a_@.len() == i,
            b_@.len() == i,
            forall|ii: int| 0 <= ii < i ==> #[trigger] rows(a_@)[ii] == bits_of(p_int@[ii].value(), T::width() as int),
            forall|ii: int| 0 <= ii < i ==> #[trigger] rows(b_@)[ii] == (if my_id == 0 {
                not_row(bits_of(s_int@[ii].value(), T::width() as int))
            } else {
                bits_of(s_int@[ii].value(), T::width() as int)
            }),
    {
        let mut row_a: Vec<bool> = Vec::with_capacity(num_bits);
        let mut row_b: Vec<bool> = Vec::with_capacity(num_bits);
        for j in 0..num_bits
            invariant
                n == s_int@.len(),
                p_int@.len() >= n,
                i < n,
                num_bits == T::width(),
                row_a@.len() == j,
                row_b@.len() == j,
                forall|jj: int| 0 <= jj < j ==> #[trigger] row_a@[jj] == bit_of(p_int@[i as int].value(), jj as nat),
                forall|jj: int| 0 <= jj < j ==> #[trigger] row_b@[jj] == (if my_id == 0 {
                    !bit_of(s_int@[i as int].value(), jj as nat)
                } else {
                    bit_of(s_int@[i as int].value(), jj as nat)
                }),
        {
            let s_bit = s_int[i].get_bit(j);
            let p_bit = p_int[i].get_bit(j);
            if my_id == 0 {
                row_b.push(!s_bit);
            } else {
                row_b.push(s_bit);
            }
            row_a.push(p_bit);
        }
        proof {
            assert(row_a@ =~= bits_of(p_int@[i as int].value(), T::width() as int));
            if my_id == 0 {
                assert(row_b@ =~= not_row(bits_of(s_int@[i as int].value(), T::width() as int)));
            } else {
                assert(row_b@ =~= bits_of(s_int@[i as int].value(), T::width() as int));
            }
        }
        let ghost prev_a = a_@;
        let ghost prev_b = b_@;
        a_.push(row_a);
        b_.push(row_b);
        proof {
            assert(rows(a_@) =~= rows(prev_a).push(row_a@));
            assert(rows(b_@) =~= rows(prev_b).push(row_b@));
        }
    }
    (a_, b_)
}

/// A party's shares of the propagate and generate bits of a + b + c_in, where
/// a is public and b is XOR-shared: p = a ^ b (party 0) or b (party 1),
/// g = a & b, and g[0] ^= c_in & p[0]. Rows keep `num_bits` positions.
pub fn carry_out_start(a_in: &Vec<Vec<bool>>, b_in: &Vec<Vec<bool>>, c_in: bool, my_id: usize, num_bits: usize) -> (r: (Vec<Vec<bool>>, Vec<Vec<bool>>))
    requires
        a_in@.len() >= b_in@.len(),
        num_bits >= 1,
        forall|i: int| 0 <= i < b_in@.len() ==> #[trigger] a_in@[i]@.len() >= num_bits,
        forall|i: int| 0 <= i < b_in@.len() ==> #[trigger] b_in@[i]@.len() >= num_bits,
    ensures
        r.0@.len() == b_in@.len(),
        r.1@.len() == b_in@.len(),
        forall|i: int| 0 <= i < b_in@.len() ==> #[trigger] r.0@[i]@.len() == num_bits && r.1@[i]@.len() == num_bits,
        forall|i: int, j: int| 0 <= i < b_in@.len() && 0 <= j < num_bits ==> #[trigger] r.0@[i]@[j] == (if my_id == 0 {
            a_in@[i]@[j] != b_in@[i]@[j]
        } else {
            b_in@[i]@[j]
        }),
        forall|i: int, j: int| 0 <= i < b_in@.len() && 0 <= j < num_bits ==> #[trigger] r.1@[i]@[j] == (if j == 0 {
            (a_in@[i]@[0] && b_in@[i]@[0]) != (c_in && r.0@[i]@[0])
        } else {
            a_in@[i]@[j] && b_in@[i]@[j]
        }),
{
    let n = b_in.len();
    let mut p: Vec<Vec<bool>> = Vec::with_capacity(n);
    let mut g: Vec<Vec<bool>> = Vec::with_capacity(n);
    for i in 0..n
        invariant
            n == b_in@.len(),
            a_in@.len() >= n,
            num_bits >= 1,
            forall|k: int| 0 <= k < b_in@.len() ==> #[trigger] a_in@[k]@.len() >= num_bits,
            forall|k: int| 0 <= k < b_in@.len() ==> #[trigger] b_in@[k]@.len() >= num_bits,
            p@.len() == i,
            g@.len() == i,
            forall|ii: int| 0 <= ii < i ==> #[trigger] p@[ii]@.len() == num_bits && g@[ii]@.len() == num_bits,
            forall|ii: int, j: int| 0 <= ii < i && 0 <= j < num_bits ==> #[trigger] p@[ii]@[j] == (if my_id == 0 {
                a_in@[ii]@[j] != b_in@[ii]@[j]
            } else {
                b_in@[ii]@[j]
            }),
            forall|ii: int, j: int| 0 <= ii < i && 0 <= j < num_bits ==> #[trigger] g@[ii]@[j] == (if j == 0 {
                (a_in@[ii]@[0] && b_in@[ii]@[0]) != (c_in && p@[ii]@[0])
            } else {
                a_in@[ii]@[j] && b_in@[ii]@[j]
            }),
    {
        assert(a_in@[i as int]@.len() >= num_bits && b_in@[i as int]@.len() >= num_bits);
        let mut row_p: Vec<bool> = Vec::with_capacity(num_bits);
        let mut row_g: Vec<bool> = Vec::with_capacity(num_bits);
        for j in 0..num_bits
            invariant
                n == b_in@.len(),
                a_in@.len() >= n,
                i < n,
                num_bits >= 1,
                a_in@[i as int]@.len() >= num_bits,
                b_in@[i as int]@.len() >= num_bits,
                forall|k: int| 0 <= k < b_in@.len() ==> #[trigger] a_in@[k]@.len() >= num_bits,
            forall|k: int| 0 <= k < b_in@.len() ==> #[trigger] b_in@[k]@.len() >= num_bits,
                p@.len() == i,
                g@.len() == i,
                forall|ii: int| 0 <= ii < i ==> #[trigger] p@[ii]@.len() == num_bits && g@[ii]@.len() == num_bits,
                forall|ii: int, jj: int| 0 <= ii < i && 0 <= jj < num_bits ==> #[trigger] p@[ii]@[jj] == (if my_id == 0 {
                    a_in@[ii]@[jj] != b_in@[ii]@[jj]
                } else {
                    b_in@[ii]@[jj]
                }),
                forall|ii: int, jj: int| 0 <= ii < i && 0 <= jj < num_bits ==> #[trigger] g@[ii]@[jj] == (if jj == 0 {
                    (a_in@[ii]@[0] && b_in@[ii]@[0]) != (c_in && p@[ii]@[0])
                } else {
                    a_in@[ii]@[jj] && b_in@[ii]@[jj]
                }),
                row_p@.len() == j,
                row_g@.len() == j,
                forall|jj: int| 0 <= jj < j ==> #[trigger] row_p@[jj] == (if my_id == 0 {
                    a_in@[i as int]@[jj] != b_in@[i as int]@[jj]
                } else {
                    b_in@[i as int]@[jj]
                }),
                forall|jj: int| 0 <= jj < j ==> #[trigger] row_g@[jj] == (a_in@[i as int]@[jj] && b_in@[i as int]@[jj]),
        {
            let a = a_in[i][j];
            let b = b_in[i][j];
            if my_id == 0 {
                row_p.push(a != b);
            } else {
                row_p.push(b);
            }
            row_g.push(a && b);
        }
        let g0 = row_g[0] != (c_in && row_p[0]);
        row_g.set(0, g0);
        p.push(row_p);
        g.push(row_g);
    }
    (p, g)
}

/// The result bits once one position is left: g[i][0] for every row.
pub fn carry_result(g: &Vec<Vec<bool>>) -> (r: Vec<bool>)
    requires
        forall|i: int| 0 <= i < g@.len() ==> #[trigger] g@[i]@.len() >= 1,
    ensures
        r@.len() == g@.len(),
        forall|i: int| 0 <= i < g@.len() ==> #[trigger] r@[i] == g@[i]@[0],
{
    let n = g.len();
    let mut r: Vec<bool> = Vec::with_capacity(n);
    for i in 0..n
        invariant
            n == g@.len(),
            forall|i: int| 0 <= i < g@.len() ==> #[trigger] g@[i]@.len() >= 1,
            r@.len() == i,
            forall|ii: int| 0 <= ii < i ==> #[trigger] r@[ii] == g@[ii]@[0],
    {
        assert(g@[i as int]@.len() >= 1);
        r.push(g[i][0]);
    }
    r
}

/// Law: the two parties' start shares reconstruct the propagate and
/// generate bits of a + (not s) + c_in, where s = s0 ^ s1 is the shared operand.
pub proof fn lemma_start_reconstructs(a: Seq<bool>, s0: Seq<bool>, s1: Seq<bool>, c_in: bool, p0: Seq<bool>, g0: Seq<bool>, p1: Seq<bool>, g1: Seq<bool>, w: int)
    requires
        w >= 1,
        a.len() == w,
        s0.len() == w,
        s1.len() == w,
        p0.len() == w && g0.len() == w && p1.len() == w && g1.len() == w,
        forall|j: int| 0 <= j < w ==> #[trigger] p0[j] == (a[j] != !s0[j]),
        forall|j: int| 0 <= j < w ==> #[trigger] p1[j] == s1[j],
        forall|j: int| 0 <= j < w ==> #[trigger] g0[j] == (if j == 0 {
            (a[0] && !s0[0]) != (c_in && p0[0])
        } else {
            a[j] && !s0[j]
        }),
        forall|j: int| 0 <= j < w ==> #[trigger] g1[j] == (if j == 0 {
            (a[0] && s1[0]) != (c_in && p1[0])
        } else {
            a[j] && s1[j]
        }),
    ensures
        xor_row(p0, p1) == add_p(a, not_row(xor_row(s0, s1))),
        xor_row(g0, g1) == add_g(a, not_row(xor_row(s0, s1)), c_in),
{
    assert(xor_row(p0, p1) =~= add_p(a, not_row(xor_row(s0, s1))));
    assert(xor_row(g0, g1) =~= add_g(a, not_row(xor_row(s0, s1)), c_in));
}

proof fn lemma_add_carry(a: Seq<bool>, b: Seq<bool>, c_in: bool, n: int)
    requires
        1 <= n <= a.len(),
        a.len() == b.len(),
    ensures
        fold_g(add_p(a, b), add_g(a, b, c_in), n) == (bits_value(a, n) + bits_value(b, n) + (if c_in { 1int } else { 0int }) >= pow2(n as nat)),
        bits_value(a, n) + bits_value(b, n) + (if c_in { 1int } else { 0int }) < 2 * pow2(n as nat),
    decreases n,
{
    let p = add_p(a, b);
    let g = add_g(a, b, c_in);
    vstd::arithmetic::power2::lemma2_to64();
    if n == 1 {
        assert(bits_value(a, 0) == 0);
        assert(bits_value(b, 0) == 0);
        assert(fold_g(p, g, 0) == false);
        assert(g[0] == ((a[0] && b[0]) != (c_in && (a[0] != b[0]))));
        assert(fold_g(p, g, 1) == g[0]);
        assert(pow2(1) == 2);
        assert(bits_value(a, 1) == if a[0] { 1int } else { 0int });
        assert(bits_value(b, 1) == if b[0] { 1int } else { 0int });
    } else {
        lemma_add_carry(a, b, c_in, n - 1);
        vstd::arithmetic::power2::lemma_pow2_unfold((n - 1) as nat);
        vstd::arithmetic::power2::lemma_pow2_unfold(n as nat);
        let pw = pow2((n - 1) as nat) as int;
        assert(pow2(n as nat) == 2 * pw);
        assert(p[n - 1] == (a[n - 1] != b[n - 1]));
        assert(g[n - 1] == (a[n - 1] && b[n - 1]));
        let ci: int = if c_in { 1 } else { 0 };
        let sm = bits_value(a, n - 1) + bits_value(b, n - 1) + ci;
        assert(bits_value(a, n) == bits_value(a, n - 1) + (if a[n - 1] { pw } else { 0 }));
        assert(bits_value(b, n) == bits_value(b, n - 1) + (if b[n - 1] { pw } else { 0 }));
        assert(fold_g(p, g, n) == (g[n - 1] != (fold_g(p, g, n - 1) && p[n - 1])));
        assert(fold_g(p, g, n - 1) == (sm >= pw));
        assert(sm < 2 * pw);
        lemma_bits_value_bound(a, n - 1);
        lemma_bits_value_bound(b, n - 1);
    }
}

proof fn lemma_bits_value_bound(b: Seq<bool>, n: int)
    requires
        0 <= n,
    ensures
        0 <= bits_value(b, n) < pow2(n as nat),
    decreases n,
{
    vstd::arithmetic::power2::lemma2_to64();
    if n > 0 {
        lemma_bits_value_bound(b, n - 1);
        vstd::arithmetic::power2::lemma_pow2_unfold(n as nat);
    }
}

proof fn lemma_bits_value_not(b: Seq<bool>, n: int)
    requires
        0 <= n <= b.len(),
    ensures
        bits_value(not_row(b), n) == pow2(n as nat) - 1 - bits_value(b, n),
    decreases n,
{
    vstd::arithmetic::power2::lemma2_to64();
    if n > 0 {
        lemma_bits_value_not(b, n - 1);
        vstd::arithmetic::power2::lemma_pow2_unfold(n as nat);
    }
}

proof fn lemma_bits_value_of(v: int, n: int)
    requires
        0 <= v,
        0 <= n,
    ensures
        bits_value(bits_of(v, n), n) == v % (pow2(n as nat) as int),
    decreases n,
{
    vstd::arithmetic::power2::lemma2_to64();
    if n == 0 {
        assert(pow2(0) == 1);
        assert(v % 1 == 0);
        assert(bits_value(bits_of(v, n), n) == 0);
    } else {
        lemma_bits_value_of(v, n - 1);
        let pw = pow2((n - 1) as nat) as int;
        vstd::arithmetic::power2::lemma_pow2_unfold(n as nat);
        vstd::arithmetic::power2::lemma_pow2_pos((n - 1) as nat);
        assert(bits_value(bits_of(v, n), n - 1) == bits_value(bits_of(v, n - 1), n - 1)) by {
            lemma_bits_value_ext(bits_of(v, n), bits_of(v, n - 1), n - 1);
        }
        vstd::arithmetic::div_mod::lemma_mod_breakdown(v, pw, 2);
        assert(pw * 2 == pow2(n as nat));
        assert(bits_of(v, n)[n - 1] == bit_of(v, (n - 1) as nat));
        vstd::arithmetic::div_mod::lemma_mod_bound(v / pw, 2);
        if bit_of(v, (n - 1) as nat) {
            assert((v / pw) % 2 == 1);
            assert(pw * ((v / pw) % 2) == pw);
        } else {
            assert((v / pw) % 2 == 0);
            assert(pw * ((v / pw) % 2) == 0);
        }
    }
}

proof fn lemma_bits_value_ext(b1: Seq<bool>, b2: Seq<bool>, n: int)
    requires
        forall|j: int| 0 <= j < n ==> b1[j] == b2[j],
    ensures
        bits_value(b1, n) == bits_value(b2, n),
    decreases n,
{
    if n > 0 {
        lemma_bits_value_ext(b1, b2, n - 1);
    }
}

/// Law: the carry out of delta + (not lambda) + 1 over w bits is
/// [delta >= lambda], for delta and lambda in [0, 2^w): the combined
/// generate bit of the clear operands is the comparison.
pub proof fn lemma_carry_is_comparison(delta: int, lambda: int, w: int)
    requires
        w >= 1,
        0 <= delta < pow2(w as nat),
        0 <= lambda < pow2(w as nat),
    ensures
        fold_g(
            add_p(bits_of(delta, w), not_row(bits_of(lambda, w))),
            add_g(bits_of(delta, w), not_row(bits_of(lambda, w)), true),
            w,
        ) == (delta >= lambda),
{
    let a = bits_of(delta, w);
    let b = not_row(bits_of(lambda, w));
    lemma_add_carry(a, b, true, w);
    lemma_bits_value_of(delta, w);
    lemma_bits_value_of(lambda, w);
    lemma_bits_value_not(bits_of(lambda, w), w);
    vstd::arithmetic::div_mod::lemma_small_mod(delta as nat, pow2(w as nat));
    vstd::arithmetic::div_mod::lemma_small_mod(lambda as nat, pow2(w as nat));
}

/// The bits of the exclusive or of two elements are the exclusive or of their bits.
pub proof fn lemma_bits_of_xor<T: ShareElement>(x: T, y: T)
    ensures
        bits_of(T::spec_xor(x, y).value(), T::width() as int) == xor_row(bits_of(x.value(), T::width() as int), bits_of(y.value(), T::width() as int)),
{
    T::lemma_xor(x, y, y);
    assert(bits_of(T::spec_xor(x, y).value(), T::width() as int) =~= xor_row(bits_of(x.value(), T::width() as int), bits_of(y.value(), T::width() as int)));
}

} // verus!
