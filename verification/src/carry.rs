//! The two-party carry-out protocol on XOR-shared bits: each party holds
//! shares of propagate (p) and generate (g) bits, and each round combines
//! neighbouring positions with one AND (a Beaver triple) per pair.
use crate::bits::{get_byte_bit, msg_bit, pack_bits, packs};
use crate::ring::lemma_index;
use vstd::prelude::*;

verus! {

/// The rows of a bit matrix.
pub open spec fn rows(v: Seq<Vec<bool>>) -> Seq<Seq<bool>> {
    v.map_values(|r: Vec<bool>| r@)
}

/// Every row holds at least `k` bits, and p and g have the same number of rows.
pub open spec fn shaped(p: Seq<Seq<bool>>, g: Seq<Seq<bool>>, k: int) -> bool {
    &&& p.len() == g.len()
    &&& forall|i: int| 0 <= i < p.len() ==> #[trigger] p[i].len() >= k && g[i].len() >= k
}

/// Element-wise exclusive or of two bit rows.
pub open spec fn xor_row(x: Seq<bool>, y: Seq<bool>) -> Seq<bool> {
    Seq::new(x.len(), |j: int| x[j] != y[j])
}

/// The generate bit of positions [0, n) combined: the carry out of them.
pub open spec fn fold_g(p: Seq<bool>, g: Seq<bool>, n: int) -> bool
    decreases n,
{
    if n <= 0 {
        false
    } else {
        g[n - 1] != (fold_g(p, g, n - 1) && p[n - 1])
    }
}

/// The propagate bit of positions [0, n) combined.
pub open spec fn fold_p(p: Seq<bool>, n: int) -> bool
    decreases n,
{
    if n <= 0 {
        true
    } else {
        fold_p(p, n - 1) && p[n - 1]
    }
}

/// The number of positions left after one round on k positions.
pub open spec fn reduced_len(k: int) -> int {
    k / 2 + k % 2
}

/// One round on clear bits: positions 2j and 2j+1 combine into j; an odd last
/// position is carried over.
pub open spec fn reduce_p(p: Seq<bool>, k: int) -> Seq<bool> {
    Seq::new(
        reduced_len(k) as nat,
        |j: int|
            if j < k / 2 {
                p[2 * j] && p[2 * j + 1]
            } else {
                p[k - 1]
            },
    )
}

pub open spec fn reduce_g(p: Seq<bool>, g: Seq<bool>, k: int) -> Seq<bool> {
    Seq::new(
        reduced_len(k) as nat,
        |j: int|
            if j < k / 2 {
                g[2 * j + 1] != (g[2 * j] && p[2 * j + 1])
            } else {
                g[k - 1]
            },
    )
}

/// Bit r (0..4) of the message block of row i, pair j: the masked operands of
/// the two ANDs p[2j] & p[2j+1] and g[2j] & p[2j+1].
pub open spec fn round_bit_at(p: Seq<Seq<bool>>, g: Seq<Seq<bool>>, ta: bool, tb: bool, i: int, j: int, r: int) -> bool {
    if r == 0 {
        p[i][2 * j] != ta
    } else if r == 1 {
        p[i][2 * j + 1] != tb
    } else if r == 2 {
        g[i][2 * j] != ta
    } else {
        p[i][2 * j + 1] != tb
    }
}

/// The bits a party sends in a round with `u_len` pairs per row.
pub open spec fn round_bits(p: Seq<Seq<bool>>, g: Seq<Seq<bool>>, u_len: int, ta: bool, tb: bool) -> Seq<bool> {
    Seq::new(
        (4 * (p.len() * u_len)) as nat,
        |t: int| round_bit_at(p, g, ta, tb, (t / 4) / u_len, (t / 4) % u_len, t % 4),
    )
}

/// A party's share of x & y by a Beaver triple: alpha and beta are the opened
/// x ^ a and y ^ b, c the party's share of a & b; `first` is party 0.
pub open spec fn and_share(c: bool, alpha: bool, beta: bool, x: bool, y: bool, first: bool) -> bool {
    ((c != (alpha && y)) != (beta && x)) != (first && alpha && beta)
}

/// The opened value of message bit `pos`: the sent bit xor the received bit.
pub open spec fn opened(sent: Seq<u8>, rcv: Seq<u8>, pos: int) -> bool {
    msg_bit(sent, pos) != msg_bit(rcv, pos)
}

/// Entry (i, j) of a party's propagate shares after a round on k positions.
pub open spec fn round_p_entry(p: Seq<Seq<bool>>, k: int, sent: Seq<u8>, rcv: Seq<u8>, first: bool, tc: bool, i: int, j: int) -> bool {
    let u_len = k / 2;
    let q = i * u_len + j;
    if j < u_len {
        and_share(tc, opened(sent, rcv, 4 * q), opened(sent, rcv, 4 * q + 1), p[i][2 * j], p[i][2 * j + 1], first)
    } else if j == u_len && k % 2 == 1 {
        p[i][k - 1]
    } else {
        false
    }
}

/// Entry (i, j) of a party's generate shares after a round on k positions.
pub open spec fn round_g_entry(p: Seq<Seq<bool>>, g: Seq<Seq<bool>>, k: int, sent: Seq<u8>, rcv: Seq<u8>, first: bool, tc: bool, i: int, j: int) -> bool {
    let u_len = k / 2;
    let q = i * u_len + j;
    if j < u_len {
        g[i][2 * j + 1] != and_share(tc, opened(sent, rcv, 4 * q + 2), opened(sent, rcv, 4 * q + 3), g[i][2 * j], p[i][2 * j + 1], first)
    } else if j == u_len && k % 2 == 1 {
        g[i][k - 1]
    } else {
        false
    }
}

/// The message of a round: for every row and pair, the four masked operand
/// bits, packed into bytes.
pub fn carry_round_message(p: &Vec<Vec<bool>>, g: &Vec<Vec<bool>>, k: usize, ta: bool, tb: bool) -> (r: Vec<u8>)
    requires
        shaped(rows(p@), rows(g@), k as int),
        4 * (p@.len() * (k / 2)) + 7 <= usize::MAX,
    ensures
        packs(r@, round_bits(rows(p@), rows(g@), (k / 2) as int, ta, tb)),
{
    let n = p.len();
    let u_len = k / 2;
    let ghost pr = rows(p@);
    let ghost gr = rows(g@);
    let mut bits: Vec<bool> = Vec::new();
    assert(bits@.len() == 4 * (0 * u_len));
    for i in 0..n
        invariant
            n == p@.len(),
            u_len == k / 2,
            pr == rows(p@),
            gr == rows(g@),
            shaped(pr, gr, k as int),
            4 * (n * u_len) + 7 <= usize::MAX,
            bits@.len() == 4 * (i * u_len),
            forall|t: int| 0 <= t < bits@.len() ==> #[trigger] bits@[t] == round_bit_at(pr, gr, ta, tb, (t / 4) / u_len as int, (t / 4) % u_len as int, t % 4),
    {
        assert(p@[i as int]@ == pr[i as int]);
        assert(g@[i as int]@ == gr[i as int]);
        for j in 0..u_len
            invariant
                n == p@.len(),
                i < n,
                u_len == k / 2,
                pr == rows(p@),
                gr == rows(g@),
                shaped(pr, gr, k as int),
                4 * (n * u_len) + 7 <= usize::MAX,
                bits@.len() == 4 * (i * u_len + j),
                forall|t: int| 0 <= t < bits@.len() ==> #[trigger] bits@[t] == round_bit_at(pr, gr, ta, tb, (t / 4) / u_len as int, (t / 4) % u_len as int, t % 4),
        {
            assert(pr[i as int].len() >= k && gr[i as int].len() >= k);
            let ghost base = 4 * (i * u_len + j);
            proof {
                lemma_index(i as int, j as int, n as int, u_len as int);
                assert(i * u_len + j < n * u_len);
            }
            bits.push(p[i][2 * j] != ta);
            bits.push(p[i][2 * j + 1] != tb);
            bits.push(g[i][2 * j] != ta);
            bits.push(p[i][2 * j + 1] != tb);
            proof {
                assert forall|t: int| base <= t < base + 4 implies #[trigger] bits@[t] == round_bit_at(pr, gr, ta, tb, (t / 4) / u_len as int, (t / 4) % u_len as int, t % 4) by {
                    assert(t / 4 == i * u_len + j);
                }
                assert(bits@.len() == 4 * (i * u_len + (j + 1)));
            }
        }
        assert(4 * (i * u_len + u_len) == 4 * ((i + 1) * u_len)) by (nonlinear_arith);
    }
    assert(bits@ =~= round_bits(pr, gr, u_len as int, ta, tb));
    pack_bits(bits.as_slice())
}

/// Combines a round: from the party's shares, its own message and the other
/// party's message, the shares of the propagate and generate bits of the
/// reduced positions, and their number.
pub fn carry_round_combine(
    p: &Vec<Vec<bool>>,
    g: &Vec<Vec<bool>>,
    k: usize,
    sendmsg: &[u8],
    rcvmsg: &[u8],
    my_id: usize,
    tc: bool,
) -> (r: (Vec<Vec<bool>>, Vec<Vec<bool>>, usize))
    requires
        k > 1,
        shaped(rows(p@), rows(g@), k as int),
        4 * (p@.len() * (k / 2)) + 7 <= usize::MAX,
        sendmsg@.len() == (4 * (p@.len() * (k / 2)) + 7) / 8,
        rcvmsg@.len() == (4 * (p@.len() * (k / 2)) + 7) / 8,
    ensures
        r.2 == reduced_len(k as int),
        r.0@.len() == p@.len(),
        r.1@.len() == p@.len(),
        forall|i: int| 0 <= i < p@.len() ==> #[trigger] r.0@[i]@.len() == p@[i]@.len(),
        forall|i: int| 0 <= i < p@.len() ==> #[trigger] r.1@[i]@.len() == p@[i]@.len(),
        forall|i: int, j: int| 0 <= i < p@.len() && 0 <= j < p@[i]@.len() ==> #[trigger] r.0@[i]@[j] == round_p_entry(rows(p@), k as int, sendmsg@, rcvmsg@, my_id == 0, tc, i, j),
        forall|i: int, j: int| 0 <= i < p@.len() && 0 <= j < p@[i]@.len() ==> #[trigger] r.1@[i]@[j] == round_g_entry(rows(p@), rows(g@), k as int, sendmsg@, rcvmsg@, my_id == 0, tc, i, j),
{
    let n = p.len();
    let u_len = k / 2;
    let ghost pr = rows(p@);
    let ghost gr = rows(g@);
    let first = my_id == 0;
    let mut u_p: Vec<Vec<bool>> = Vec::with_capacity(n);
    let mut u_g: Vec<Vec<bool>> = Vec::with_capacity(n);
    for i in 0..n
        invariant
            n == p@.len(),
            u_len == k / 2,
            k > 1,
            first == (my_id == 0),
            pr == rows(p@),
            gr == rows(g@),
            shaped(pr, gr, k as int),
            4 * (n * u_len) + 7 <= usize::MAX,
            sendmsg@.len() == (4 * (n * u_len) + 7) / 8,
            rcvmsg@.len() == (4 * (n * u_len) + 7) / 8,
            u_p@.len() == i,
            u_g@.len() == i,
            forall|ii: int| 0 <= ii < i ==> #[trigger] u_p@[ii]@.len() == p@[ii]@.len(),
            forall|ii: int| 0 <= ii < i ==> #[trigger] u_g@[ii]@.len() == p@[ii]@.len(),
            forall|ii: int, j: int| 0 <= ii < i && 0 <= j < p@[ii]@.len() ==> #[trigger] u_p@[ii]@[j] == round_p_entry(pr, k as int, sendmsg@, rcvmsg@, first, tc, ii, j),
            forall|ii: int, j: int| 0 <= ii < i && 0 <= j < p@[ii]@.len() ==> #[trigger] u_g@[ii]@[j] == round_g_entry(pr, gr, k as int, sendmsg@, rcvmsg@, first, tc, ii, j),
    {
        let width = p[i].len();
        assert(p@[i as int]@ == pr[i as int]);
        assert(g@[i as int]@ == gr[i as int]);
        assert(pr[i as int].len() >= k && gr[i as int].len() >= k);
        let mut row_p: Vec<bool> = Vec::with_capacity(width);
        let mut row_g: Vec<bool> = Vec::with_capacity(width);
        for j in 0..u_len
            invariant
                n == p@.len(),
                i < n,
                u_len == k / 2,
                k > 1,
                width == p@[i as int]@.len(),
                g@[i as int]@.len() >= k,
                p@[i as int]@ == pr[i as int],
                g@[i as int]@ == gr[i as int],
                width >= k,
                first == (my_id == 0),
                pr == rows(p@),
                gr == rows(g@),
                shaped(pr, gr, k as int),
                4 * (n * u_len) + 7 <= usize::MAX,
                sendmsg@.len() == (4 * (n * u_len) + 7) / 8,
                rcvmsg@.len() == (4 * (n * u_len) + 7) / 8,
                row_p@.len() == j,
                row_g@.len() == j,
                forall|jj: int| 0 <= jj < j ==> #[trigger] row_p@[jj] == round_p_entry(pr, k as int, sendmsg@, rcvmsg@, first, tc, i as int, jj),
                forall|jj: int| 0 <= jj < j ==> #[trigger] row_g@[jj] == round_g_entry(pr, gr, k as int, sendmsg@, rcvmsg@, first, tc, i as int, jj),
        {
            proof {
                lemma_index(i as int, j as int, n as int, u_len as int);
            }
            let q = i * u_len + j;
            let t1 = 2 * q;
            let vec_loc = t1 * 2 / 8;
            let bit_loc = (t1 * 2) % 8;
            let alpha = get_byte_bit(sendmsg, vec_loc, bit_loc) != get_byte_bit(rcvmsg, vec_loc, bit_loc);
            let beta = get_byte_bit(sendmsg, vec_loc, bit_loc + 1) != get_byte_bit(rcvmsg, vec_loc, bit_loc + 1);
            let x_ = p[i][2 * j];
            let y_ = p[i][2 * j + 1];
            let mut z = tc != ((alpha && y_) != (beta && x_));
            if first {
                z = z != (alpha && beta);
            }
            proof {
                assert(alpha == opened(sendmsg@, rcvmsg@, 4 * q));
                assert(beta == opened(sendmsg@, rcvmsg@, 4 * q + 1));
            }
            row_p.push(z);
            let t2 = 2 * q + 1;
            let vec_loc = t2 * 2 / 8;
            let bit_loc = (t2 * 2) % 8;
            let alpha = get_byte_bit(sendmsg, vec_loc, bit_loc) != get_byte_bit(rcvmsg, vec_loc, bit_loc);
            let beta = get_byte_bit(sendmsg, vec_loc, bit_loc + 1) != get_byte_bit(rcvmsg, vec_loc, bit_loc + 1);
            let x_ = g[i][2 * j];
            let y_ = p[i][2 * j + 1];
            let mut z = tc != ((alpha && y_) != (beta && x_));
            if first {
                z = z != (alpha && beta);
            }
            proof {
                assert(alpha == opened(sendmsg@, rcvmsg@, 4 * q + 2));
                assert(beta == opened(sendmsg@, rcvmsg@, 4 * q + 3));
            }
            row_g.push(g[i][2 * j + 1] != z);
        }
        let mut j = u_len;
        if k % 2 == 1 {
            row_p.push(p[i][k - 1]);
            row_g.push(g[i][k - 1]);
            j = j + 1;
        }
        while j < width
            invariant
                u_len == k / 2,
                k > 1,
                width >= k,
                j <= width,
                j >= u_len,
                row_p@.len() == j,
                row_g@.len() == j,
                j == u_len || (j == u_len + 1 && k % 2 == 1) || j > u_len + k % 2,
                k % 2 == 1 ==> j > u_len,
                forall|jj: int| 0 <= jj < j ==> #[trigger] row_p@[jj] == round_p_entry(pr, k as int, sendmsg@, rcvmsg@, first, tc, i as int, jj),
                forall|jj: int| 0 <= jj < j ==> #[trigger] row_g@[jj] == round_g_entry(pr, gr, k as int, sendmsg@, rcvmsg@, first, tc, i as int, jj),
            decreases width - j,
        {
            row_p.push(false);
            row_g.push(false);
            j = j + 1;
        }
        u_p.push(row_p);
        u_g.push(row_g);
    }
    (u_p, u_g, u_len + k % 2)
}


/// The fold over the first n positions only reads those positions.
pub proof fn lemma_fold_ext(p1: Seq<bool>, g1: Seq<bool>, p2: Seq<bool>, g2: Seq<bool>, n: int)
    requires
        forall|j: int| 0 <= j < n ==> p1[j] == p2[j] && g1[j] == g2[j],
    ensures
        fold_g(p1, g1, n) == fold_g(p2, g2, n),
        fold_p(p1, n) == fold_p(p2, n),
    decreases n,
{
    if n > 0 {
        lemma_fold_ext(p1, g1, p2, g2, n - 1);
    }
}

proof fn lemma_reduce_fold_pairs(p: Seq<bool>, g: Seq<bool>, k: int, j: int)
    requires
        1 <= k <= p.len(),
        k <= g.len(),
        0 <= j <= k / 2,
    ensures
        fold_g(reduce_p(p, k), reduce_g(p, g, k), j) == fold_g(p, g, 2 * j),
        fold_p(reduce_p(p, k), j) == fold_p(p, 2 * j),
    decreases j,
{
    if j > 0 {
        lemma_reduce_fold_pairs(p, g, k, j - 1);
        let rp = reduce_p(p, k);
        let rg = reduce_g(p, g, k);
        assert(rp[j - 1] == (p[2 * j - 2] && p[2 * j - 1]));
        assert(rg[j - 1] == (g[2 * j - 1] != (g[2 * j - 2] && p[2 * j - 1])));
        assert(fold_g(p, g, 2 * j - 1) == (g[2 * j - 2] != (fold_g(p, g, 2 * j - 2) && p[2 * j - 2])));
        assert(fold_g(p, g, 2 * j) == (g[2 * j - 1] != (fold_g(p, g, 2 * j - 1) && p[2 * j - 1])));
        assert(fold_p(p, 2 * j - 1) == (fold_p(p, 2 * j - 2) && p[2 * j - 2]));
    }
}

/// Combining neighbouring positions keeps the combined propagate and
/// generate bits of all k positions.
pub proof fn lemma_reduce_fold(p: Seq<bool>, g: Seq<bool>, k: int)
    requires
        1 <= k <= p.len(),
        k <= g.len(),
    ensures
        fold_g(reduce_p(p, k), reduce_g(p, g, k), reduced_len(k)) == fold_g(p, g, k),
        fold_p(reduce_p(p, k), reduced_len(k)) == fold_p(p, k),
{
    lemma_reduce_fold_pairs(p, g, k, k / 2);
    if k % 2 == 1 {
        let rp = reduce_p(p, k);
        let rg = reduce_g(p, g, k);
        assert(2 * (k / 2) == k - 1);
        assert(rp[k / 2] == p[k - 1]);
        assert(rg[k / 2] == g[k - 1]);
    } else {
        assert(2 * (k / 2) == k);
    }
}

/// Law: after a round, the exclusive or of the two parties' shares of each
/// reduced position is the clear combination of the exclusive or of their
/// shares before the round (the Beaver AND is correct for any valid triple).
pub proof fn lemma_round_reconstructs(
    p0: Seq<Seq<bool>>,
    g0: Seq<Seq<bool>>,
    p1: Seq<Seq<bool>>,
    g1: Seq<Seq<bool>>,
    k: int,
    a0: bool,
    b0: bool,
    c0: bool,
    a1: bool,
    b1: bool,
    c1: bool,
    m0: Seq<u8>,
    m1: Seq<u8>,
    i: int,
    j: int,
)
    requires
        k > 1,
        shaped(p0, g0, k),
        shaped(p1, g1, k),
        p0.len() == p1.len(),
        packs(m0, round_bits(p0, g0, k / 2, a0, b0)),
        packs(m1, round_bits(p1, g1, k / 2, a1, b1)),
        ((a0 != a1) && (b0 != b1)) == (c0 != c1),
        0 <= i < p0.len(),
        0 <= j < reduced_len(k),
    ensures
        (round_p_entry(p0, k, m0, m1, true, c0, i, j) != round_p_entry(p1, k, m1, m0, false, c1, i, j))
            == reduce_p(xor_row(p0[i], p1[i]), k)[j],
        (round_g_entry(p0, g0, k, m0, m1, true, c0, i, j) != round_g_entry(p1, g1, k, m1, m0, false, c1, i, j))
            == reduce_g(xor_row(p0[i], p1[i]), xor_row(g0[i], g1[i]), k)[j],
{
    let u = k / 2;
    let n = p0.len();
    assert(p0[i].len() >= k && g0[i].len() >= k && p1[i].len() >= k && g1[i].len() >= k);
    if j < u {
        let q = i * u + j;
        lemma_index(i, j, n as int, u);
        assert(q < n * u);
        let bits0 = round_bits(p0, g0, u, a0, b0);
        let bits1 = round_bits(p1, g1, u, a1, b1);
        assert forall|r: int| 0 <= r < 4 implies #[trigger] msg_bit(m0, 4 * q + r) == round_bit_at(p0, g0, a0, b0, i, j, r) && msg_bit(m1, 4 * q + r) == round_bit_at(p1, g1, a1, b1, i, j, r) by {
            let t = 4 * q + r;
            assert(t / 4 == q);
            assert(t % 4 == r);
            assert(msg_bit(m0, t) == bits0[t]);
            assert(msg_bit(m1, t) == bits1[t]);
        }
        assert(msg_bit(m0, 4 * q) == round_bit_at(p0, g0, a0, b0, i, j, 0));
        assert(msg_bit(m0, 4 * q + 1) == round_bit_at(p0, g0, a0, b0, i, j, 1));
        assert(msg_bit(m0, 4 * q + 2) == round_bit_at(p0, g0, a0, b0, i, j, 2));
        assert(msg_bit(m0, 4 * q + 3) == round_bit_at(p0, g0, a0, b0, i, j, 3));
        assert(msg_bit(m1, 4 * q) == round_bit_at(p1, g1, a1, b1, i, j, 0));
        assert(msg_bit(m1, 4 * q + 1) == round_bit_at(p1, g1, a1, b1, i, j, 1));
        assert(msg_bit(m1, 4 * q + 2) == round_bit_at(p1, g1, a1, b1, i, j, 2));
        assert(msg_bit(m1, 4 * q + 3) == round_bit_at(p1, g1, a1, b1, i, j, 3));
    } else {
        assert(k % 2 == 1 && j == u);
    }
}

/// Law: a round keeps the carry out (and the combined propagate bit) of each
/// row of the reconstructed bits, for any valid triple.
pub proof fn lemma_round_preserves_carry(
    p0: Seq<Seq<bool>>,
    g0: Seq<Seq<bool>>,
    p1: Seq<Seq<bool>>,
    g1: Seq<Seq<bool>>,
    k: int,
    a0: bool,
    b0: bool,
    c0: bool,
    a1: bool,
    b1: bool,
    c1: bool,
    m0: Seq<u8>,
    m1: Seq<u8>,
    up0: Seq<Seq<bool>>,
    ug0: Seq<Seq<bool>>,
    up1: Seq<Seq<bool>>,
    ug1: Seq<Seq<bool>>,
    i: int,
)
    requires
        k > 1,
        shaped(p0, g0, k),
        shaped(p1, g1, k),
        p0.len() == p1.len(),
        packs(m0, round_bits(p0, g0, k / 2, a0, b0)),
        packs(m1, round_bits(p1, g1, k / 2, a1, b1)),
        ((a0 != a1) && (b0 != b1)) == (c0 != c1),
        0 <= i < p0.len(),
        up0[i].len() >= reduced_len(k),
        ug0[i].len() >= reduced_len(k),
        up1[i].len() >= reduced_len(k),
        ug1[i].len() >= reduced_len(k),
        forall|j: int| 0 <= j < reduced_len(k) ==> #[trigger] up0[i][j] == round_p_entry(p0, k, m0, m1, true, c0, i, j),
        forall|j: int| 0 <= j < reduced_len(k) ==> #[trigger] ug0[i][j] == round_g_entry(p0, g0, k, m0, m1, true, c0, i, j),
        forall|j: int| 0 <= j < reduced_len(k) ==> #[trigger] up1[i][j] == round_p_entry(p1, k, m1, m0, false, c1, i, j),
        forall|j: int| 0 <= j < reduced_len(k) ==> #[trigger] ug1[i][j] == round_g_entry(p1, g1, k, m1, m0, false, c1, i, j),
    ensures
        fold_g(xor_row(up0[i], up1[i]), xor_row(ug0[i], ug1[i]), reduced_len(k))
            == fold_g(xor_row(p0[i], p1[i]), xor_row(g0[i], g1[i]), k),
        fold_p(xor_row(up0[i], up1[i]), reduced_len(k)) == fold_p(xor_row(p0[i], p1[i]), k),
{
    let pp = xor_row(p0[i], p1[i]);
    let gg = xor_row(g0[i], g1[i]);
    assert(p0[i].len() >= k && g0[i].len() >= k);
    assert(i < p1.len());
    assert(p1[i].len() >= k && g1[i].len() >= k);
    assert forall|j: int| 0 <= j < reduced_len(k) implies xor_row(up0[i], up1[i])[j] == reduce_p(pp, k)[j] && xor_row(ug0[i], ug1[i])[j] == reduce_g(pp, gg, k)[j] by {
        lemma_round_reconstructs(p0, g0, p1, g1, k, a0, b0, c0, a1, b1, c1, m0, m1, i, j);
    }
    lemma_fold_ext(xor_row(up0[i], up1[i]), xor_row(ug0[i], ug1[i]), reduce_p(pp, k), reduce_g(pp, gg, k), reduced_len(k));
    lemma_reduce_fold(pp, gg, k);
}
} // verus!
