//! The trusted dealer of the preprocessing phase: it holds the MAC key,
//! splits masked values and their MACs into additive shares for N parties,
//! and collects the bytes of each party's preprocessing file.
use crate::ring::lemma_mod_ops;
use crate::share::{
    fill_random, modulus, seq_to_bytes, slice_as_bytes, values, widen, ShareElement, Spdz2kShare,
};
use vstd::arithmetic::power2::pow2;
use vstd::prelude::*;

verus! {

/// The sum of a sequence of integers.
pub open spec fn seq_sum(s: Seq<int>) -> int
    decreases s.len(),
{
    if s.len() == 0 {
        0
    } else {
        seq_sum(s.drop_last()) + s.last()
    }
}

/// Entry `idx` of every row.
pub open spec fn column(rows: Seq<Seq<int>>, idx: int) -> Seq<int> {
    Seq::new(rows.len(), |i: int| rows[i][idx])
}

/// The ring values of the rows of a matrix of elements.
pub open spec fn row_values<T: ShareElement>(rows: Seq<Vec<T>>) -> Seq<Seq<int>> {
    rows.map_values(|r: Vec<T>| values(r@))
}

/// The value a share of `value` hides: mask * 2^K + value, so that its low K
/// bits are the value.
pub open spec fn masked_value<S: Spdz2kShare>(value: int, mask: int) -> int {
    mask * pow2(S::K_BITS as nat) + value
}

/// The rows are the N parties' shares of the clear values and of their MACs:
/// entry idx of the value rows adds up to the clear value idx under some
/// mask below 2^S, and entry idx of the MAC rows to that masked value times
/// the key.
pub open spec fn shares_hide<S: Spdz2kShare>(value_shares: Seq<Vec<S::SemiShrType>>, mac_shares: Seq<Vec<S::SemiShrType>>, clears: Seq<int>, key: int, n: int) -> bool {
    &&& value_shares.len() == n
    &&& mac_shares.len() == n
    &&& forall|i: int| 0 <= i < n ==> (#[trigger] value_shares[i])@.len() == clears.len()
    &&& forall|i: int| 0 <= i < n ==> (#[trigger] mac_shares[i])@.len() == clears.len()
    &&& exists|masks: Seq<int>|
        #![trigger masks.len()]
        masks.len() == clears.len()
        && (forall|idx: int| 0 <= idx < clears.len() ==> 0 <= #[trigger] masks[idx] < pow2(S::S_BITS as nat))
        && (forall|idx: int| 0 <= idx < clears.len() ==> seq_sum(#[trigger] column(row_values(value_shares), idx)) % modulus::<S::SemiShrType>() == masked_value::<S>(clears[idx], masks[idx]))
        && (forall|idx: int| 0 <= idx < clears.len() ==> seq_sum(#[trigger] column(row_values(mac_shares), idx)) % modulus::<S::SemiShrType>() == (masked_value::<S>(clears[idx], masks[idx]) * key) % modulus::<S::SemiShrType>())
}

/// A clear value as an element of the share ring.
pub open spec fn wide<S: Spdz2kShare>(v: S::ClearType) -> S::SemiShrType {
    choose|w: S::SemiShrType| w.value() == v.value()
}

/// The encoding of clear values taken into the share ring.
pub open spec fn widened_bytes<S: Spdz2kShare>(v: Seq<S::ClearType>) -> Seq<u8> {
    seq_to_bytes(v.map_values(|c: S::ClearType| wide::<S>(c)))
}

/// Elements of the share ring with the values of the clear values are their
/// widening.
pub proof fn lemma_wide_unique<S: Spdz2kShare>(w: Seq<S::SemiShrType>, v: Seq<S::ClearType>)
    requires
        values(w) == values(v),
    ensures
        w == v.map_values(|c: S::ClearType| wide::<S>(c)),
{
    assert(w.len() == values(w).len());
    assert(v.len() == values(v).len());
    assert forall|k: int| 0 <= k < w.len() implies w[k] == wide::<S>(v[k]) by {
        assert(values(w)[k] == values(v)[k]);
        assert(values(w)[k] == w[k].value());
        assert(values(v)[k] == v[k].value());
        let c = wide::<S>(v[k]);
        assert(c.value() == v[k].value());
        S::SemiShrType::lemma_value_injective(c, w[k]);
    }
    assert(w =~= v.map_values(|c: S::ClearType| wide::<S>(c)));
}

/// The shares of a value and of its MAC held by all N parties.
pub struct AllPartiesShares<S: Spdz2kShare, const N: usize> {
    pub value_shares: Vec<S::SemiShrType>,
    pub mac_shares: Vec<S::SemiShrType>,
}

/// The shares of a vector of values and of their MACs: one row per party.
pub struct AllPartiesSharesVec<S: Spdz2kShare, const N: usize> {
    pub value_shares: Vec<Vec<S::SemiShrType>>,
    pub mac_shares: Vec<Vec<S::SemiShrType>>,
}

pub struct FakeParty<S: Spdz2kShare, const N: usize> {
    global_key: S::GlobalKeyType,
    global_key_as_semi: S::SemiShrType,
    key_shares: Vec<S::KeyShrType>,
    outputs: Vec<Vec<u8>>,
}

proof fn lemma_seq_sum_push(s: Seq<int>, x: int)
    ensures
        seq_sum(s.push(x)) == seq_sum(s) + x,
{
    assert(s.push(x).drop_last() =~= s);
}

/// A value below 2^a stays below 2^b for a <= b.
proof fn lemma_pow2_le(a: nat, b: nat)
    requires
        a <= b,
    ensures
        pow2(a) <= pow2(b),
{
    if a < b {
        vstd::arithmetic::power2::lemma_pow2_strictly_increases(a, b);
    }
}

/// The mask and value fit: mask * 2^K + value < 2^(K+S).
proof fn lemma_masked_fits<S: Spdz2kShare>(value: int, mask: int)
    requires
        0 <= value < pow2(S::K_BITS as nat),
        0 <= mask < pow2(S::S_BITS as nat),
    ensures
        0 <= masked_value::<S>(value, mask) < pow2((S::K_BITS + S::S_BITS) as nat),
        mask * pow2(S::K_BITS as nat) < pow2((S::K_BITS + S::S_BITS) as nat),
        masked_value::<S>(value, mask) % (pow2(S::K_BITS as nat) as int) == value,
{
    let pk = pow2(S::K_BITS as nat) as int;
    let ps = pow2(S::S_BITS as nat) as int;
    vstd::arithmetic::power2::lemma_pow2_adds(S::K_BITS as nat, S::S_BITS as nat);
    vstd::arithmetic::power2::lemma_pow2_pos(S::K_BITS as nat);
    assert(mask * pk + value < ps * pk) by (nonlinear_arith)
        requires
            0 <= value < pk,
            0 <= mask < ps,
    ;
    assert(mask * pk <= mask * pk + value);
    assert(ps * pk == pk * ps) by (nonlinear_arith);
    assert(0 <= mask * pk) by (nonlinear_arith)
        requires
            0 <= mask,
            pk > 0,
    ;
    vstd::arithmetic::div_mod::lemma_fundamental_div_mod_converse(mask * pk + value, pk, mask, value);
}

/// The shares of the clear values split for N parties: parties 0..N-1 get
/// the given random rows, and the last party's shares complete, entry by
/// entry, the masked value (under masks[idx]) and its MAC under the key.
pub open spec fn vec_split<S: Spdz2kShare, const N: usize>(
    r: AllPartiesSharesVec<S, N>,
    clears: Seq<S::ClearType>,
    masks: Seq<S::KeyShrType>,
    rand_values: Seq<Vec<S::SemiShrType>>,
    rand_macs: Seq<Vec<S::SemiShrType>>,
    key: int,
) -> bool {
    &&& r.value_shares@.len() == N
    &&& r.mac_shares@.len() == N
    &&& forall|i: int| 0 <= i < N ==> (#[trigger] r.value_shares@[i])@.len() == clears.len()
    &&& forall|i: int| 0 <= i < N ==> (#[trigger] r.mac_shares@[i])@.len() == clears.len()
    &&& forall|i: int| 0 <= i < N - 1 ==> #[trigger] r.value_shares@[i] == rand_values[i]
    &&& forall|i: int| 0 <= i < N - 1 ==> #[trigger] r.mac_shares@[i] == rand_macs[i]
    &&& forall|idx: int| 0 <= idx < clears.len() ==> seq_sum(#[trigger] column(row_values(r.value_shares@), idx)) % modulus::<S::SemiShrType>() == masked_value::<S>(clears[idx].value(), masks[idx].value())
    &&& forall|idx: int| 0 <= idx < clears.len() ==> seq_sum(#[trigger] column(row_values(r.mac_shares@), idx)) % modulus::<S::SemiShrType>() == (masked_value::<S>(clears[idx].value(), masks[idx].value()) * key) % modulus::<S::SemiShrType>()
}

/// The shares of one clear value split for N parties: parties 0..N-1 get
/// the given random shares, and the last party's shares complete the masked
/// value and its MAC under the key.
pub open spec fn one_split<S: Spdz2kShare, const N: usize>(
    r: AllPartiesShares<S, N>,
    clear: S::ClearType,
    mask: S::KeyShrType,
    rand_values: Seq<S::SemiShrType>,
    rand_macs: Seq<S::SemiShrType>,
    key: int,
) -> bool {
    &&& r.value_shares@.len() == N
    &&& r.mac_shares@.len() == N
    &&& forall|i: int| 0 <= i < N - 1 ==> #[trigger] r.value_shares@[i] == rand_values[i]
    &&& forall|i: int| 0 <= i < N - 1 ==> #[trigger] r.mac_shares@[i] == rand_macs[i]
    &&& seq_sum(values(r.value_shares@)) % modulus::<S::SemiShrType>() == masked_value::<S>(clear.value(), mask.value())
    &&& seq_sum(values(r.mac_shares@)) % modulus::<S::SemiShrType>() == (masked_value::<S>(clear.value(), mask.value()) * key) % modulus::<S::SemiShrType>()
}

impl<S: Spdz2kShare, const N: usize> FakeParty<S, N> {
    /// The MAC key's value.
    pub closed spec fn key(&self) -> int {
        self.global_key.value()
    }

    /// The key shares' values, one per party.
    pub closed spec fn key_share_values(&self) -> Seq<int> {
        values(self.key_shares@)
    }

    /// The bytes collected so far for each party's file.
    pub closed spec fn pending(&self) -> Seq<Seq<u8>> {
        self.outputs@.map_values(|o: Vec<u8>| o@)
    }

    pub closed spec fn well_formed(&self) -> bool {
        &&& self.key_shares@.len() == N
        &&& self.outputs@.len() == N
        &&& self.global_key_as_semi.value() == self.global_key.value()
    }

    /// A well-formed dealer collects bytes for N files.
    pub proof fn lemma_pending_len(&self)
        requires
            self.well_formed(),
        ensures
            self.pending().len() == N,
    {
    }

    /// The dealer with the given MAC key shares: the key is their sum, and
    /// each party's file starts with its key share (as a GlobalKeyType).
    pub fn from_key_shares(key_shares: Vec<S::KeyShrType>) -> (r: Self)
        requires
            key_shares@.len() == N,
        ensures
            r.well_formed(),
            r.key_share_values() == values(key_shares@),
            r.key() == seq_sum(values(key_shares@)) % modulus::<S::GlobalKeyType>(),
            r.pending().len() == N,
            forall|i: int| 0 <= i < N ==> #[trigger] r.pending()[i].len() == S::GlobalKeyType::width() / 8,
            forall|i: int| 0 <= i < N ==> (#[trigger] S::GlobalKeyType::spec_from_bytes(r.pending()[i])).value() == key_shares@[i].value(),
    {
        let mut global_key = S::GlobalKeyType::zero();
        let ghost m = modulus::<S::GlobalKeyType>();
        proof {
            S::lemma_widths();
            S::GlobalKeyType::lemma_value_bounds(global_key);
            lemma_pow2_le(S::S_BITS as nat, (S::K_BITS + S::S_BITS) as nat);
            vstd::arithmetic::div_mod::lemma_small_mod(0, m as nat);
            assert(values(key_shares@).subrange(0, 0) =~= Seq::<int>::empty());
        }
        for i in 0..N
            invariant
                key_shares@.len() == N,
                m == modulus::<S::GlobalKeyType>(),
                m > 0,
                S::GlobalKeyType::width() == S::K_BITS + S::S_BITS,
                S::KeyShrType::width() == S::S_BITS,
                pow2(S::S_BITS as nat) <= pow2((S::K_BITS + S::S_BITS) as nat),
                global_key.value() == seq_sum(values(key_shares@).subrange(0, i as int)) % m,
        {
            let widened = widen::<S::KeyShrType, S::GlobalKeyType>(key_shares[i]);
            proof {
                S::KeyShrType::lemma_value_bounds(key_shares@[i as int]);
                vstd::arithmetic::div_mod::lemma_small_mod(key_shares@[i as int].value() as nat, m as nat);
                let pre = values(key_shares@).subrange(0, i as int);
                assert(values(key_shares@).subrange(0, i as int + 1) =~= pre.push(key_shares@[i as int].value()));
                lemma_seq_sum_push(pre, key_shares@[i as int].value());
                lemma_mod_ops(seq_sum(pre), key_shares@[i as int].value(), m);
            }
            global_key = global_key.wrapping_add(widened);
        }
        proof {
            assert(values(key_shares@).subrange(0, N as int) =~= values(key_shares@));
        }
        let global_key_as_semi = widen::<S::GlobalKeyType, S::SemiShrType>(global_key);
        proof {
            S::GlobalKeyType::lemma_value_bounds(global_key);
            vstd::arithmetic::div_mod::lemma_small_mod(global_key.value() as nat, pow2(S::SemiShrType::width()));
        }
        let mut outputs: Vec<Vec<u8>> = Vec::with_capacity(N);
        for i in 0..N
            invariant
                key_shares@.len() == N,
                outputs@.len() == i,
                m == modulus::<S::GlobalKeyType>(),
                S::GlobalKeyType::width() == S::K_BITS + S::S_BITS,
                S::KeyShrType::width() == S::S_BITS,
                pow2(S::S_BITS as nat) <= pow2((S::K_BITS + S::S_BITS) as nat),
                forall|j: int| 0 <= j < i ==> #[trigger] outputs@[j]@.len() == S::GlobalKeyType::width() / 8,
                forall|j: int| 0 <= j < i ==> (#[trigger] S::GlobalKeyType::spec_from_bytes(outputs@[j]@)).value() == key_shares@[j].value(),
        {
            let widened_key = widen::<S::KeyShrType, S::GlobalKeyType>(key_shares[i]);
            proof {
                S::KeyShrType::lemma_value_bounds(key_shares@[i as int]);
                vstd::arithmetic::div_mod::lemma_small_mod(key_shares@[i as int].value() as nat, m as nat);
                S::GlobalKeyType::lemma_bytes(widened_key, Seq::<u8>::empty());
            }
            outputs.push(widened_key.to_le_bytes_vec());
        }
        let r = FakeParty { global_key, global_key_as_semi, key_shares, outputs };
        proof {
            assert forall|i: int| 0 <= i < N implies #[trigger] r.pending()[i] == r.outputs@[i]@ by {
            }
        }
        r
    }

    /// A dealer with random MAC key shares.
    pub fn new() -> (r: Self)
        ensures
            r.well_formed(),
            r.key() == seq_sum(r.key_share_values()) % modulus::<S::GlobalKeyType>(),
            r.pending().len() == N,
            forall|i: int| 0 <= i < N ==> #[trigger] r.pending()[i].len() == S::GlobalKeyType::width() / 8,
            forall|i: int| 0 <= i < N ==> (#[trigger] S::GlobalKeyType::spec_from_bytes(r.pending()[i])).value() == r.key_share_values()[i],
    {
        let mut key_shares: Vec<S::KeyShrType> = Vec::with_capacity(N);
        for i in 0..N
            invariant
                key_shares@.len() == i,
        {
            key_shares.push(S::KeyShrType::random());
        }
        Self::from_key_shares(key_shares)
    }

    /// The MAC key share that party `i` holds.
    pub fn key_share(&self, i: usize) -> (r: S::KeyShrType)
        requires
            self.well_formed(),
            i < N,
        ensures
            r.value() == self.key_share_values()[i as int],
    {
        self.key_shares[i]
    }

    /// The sum of entry `idx` of every row, in Z_{2^{K+S}}.
    fn column_sum(rows: &Vec<Vec<S::SemiShrType>>, idx: usize) -> (r: S::SemiShrType)
        requires
            forall|i: int| 0 <= i < rows@.len() ==> idx < (#[trigger] rows@[i])@.len(),
        ensures
            r.value() == seq_sum(column(row_values(rows@), idx as int)) % modulus::<S::SemiShrType>(),
    {
        let ghost m = modulus::<S::SemiShrType>();
        let ghost col = column(row_values(rows@), idx as int);
        let mut sum = S::SemiShrType::zero();
        proof {
            S::SemiShrType::lemma_value_bounds(sum);
            vstd::arithmetic::div_mod::lemma_small_mod(0, m as nat);
            assert(col.subrange(0, 0) =~= Seq::<int>::empty());
        }
        let n = rows.len();
        for i in 0..n
            invariant
                n == rows@.len(),
                forall|i: int| 0 <= i < rows@.len() ==> idx < (#[trigger] rows@[i])@.len(),
                m == modulus::<S::SemiShrType>(),
                m > 0,
                col == column(row_values(rows@), idx as int),
                sum.value() == seq_sum(col.subrange(0, i as int)) % m,
        {
            assert(idx < rows@[i as int]@.len());
            let x = rows[i][idx];
            proof {
                let pre = col.subrange(0, i as int);
                assert(col[i as int] == x.value());
                assert(col.subrange(0, i as int + 1) =~= pre.push(x.value()));
                lemma_seq_sum_push(pre, x.value());
                lemma_mod_ops(seq_sum(pre), x.value(), m);
            }
            sum = sum.wrapping_add(x);
        }
        proof {
            assert(col.subrange(0, n as int) =~= col);
        }
        sum
    }

    /// The last party's row: target[idx] minus the sum of the other rows' entries.
    fn last_row(rows: &Vec<Vec<S::SemiShrType>>, targets: &Vec<S::SemiShrType>) -> (r: Vec<S::SemiShrType>)
        requires
            forall|i: int| 0 <= i < rows@.len() ==> (#[trigger] rows@[i])@.len() == targets@.len(),
        ensures
            r@.len() == targets@.len(),
            forall|idx: int| 0 <= idx < targets@.len() ==> seq_sum(#[trigger] column(row_values(rows@.push(r)), idx)) % modulus::<S::SemiShrType>() == targets@[idx].value(),
    {
        let ghost m = modulus::<S::SemiShrType>();
        let size = targets.len();
        let mut last: Vec<S::SemiShrType> = Vec::with_capacity(size);
        for idx in 0..size
            invariant
                size == targets@.len(),
                forall|i: int| 0 <= i < rows@.len() ==> (#[trigger] rows@[i])@.len() == targets@.len(),
                m == modulus::<S::SemiShrType>(),
                last@.len() == idx,
                forall|j: int| 0 <= j < idx ==> #[trigger] last@[j].value() == (targets@[j].value() - seq_sum(column(row_values(rows@), j)) % m) % m,
        {
            let sum = Self::column_sum(rows, idx);
            last.push(targets[idx].wrapping_sub(sum));
        }
        proof {
            S::SemiShrType::lemma_value_bounds(targets@[0]);
            assert forall|idx: int| 0 <= idx < targets@.len() implies seq_sum(#[trigger] column(row_values(rows@.push(last)), idx)) % m == targets@[idx].value() by {
                let col = column(row_values(rows@), idx);
                assert(column(row_values(rows@.push(last)), idx) =~= col.push(last@[idx].value()));
                lemma_seq_sum_push(col, last@[idx].value());
                let t = targets@[idx].value();
                let sm = seq_sum(col);
                lemma_mod_ops(t, sm, m);
                lemma_mod_ops(sm, t - sm, m);
                lemma_mod_ops(sm, (t - sm) % m, m);
                lemma_mod_ops(t - sm % m, 0, m);
                S::SemiShrType::lemma_value_bounds(targets@[idx]);
                vstd::arithmetic::div_mod::lemma_small_mod(t as nat, m as nat);
            }
        }
        last
    }

    /// Vectorized shares: for every index, the masked value (under masks[idx])
    /// and its MAC split with the given random rows for parties 0..N-1.
    pub fn generate_all_parties_shares_vec_from(
        &self,
        values: &[S::ClearType],
        masks: &[S::KeyShrType],
        random_value_shares: Vec<Vec<S::SemiShrType>>,
        random_mac_shares: Vec<Vec<S::SemiShrType>>,
    ) -> (r: AllPartiesSharesVec<S, N>)
        requires
            self.well_formed(),
            N >= 1,
            masks@.len() == values@.len(),
            random_value_shares@.len() == N - 1,
            random_mac_shares@.len() == N - 1,
            forall|i: int| 0 <= i < N - 1 ==> (#[trigger] random_value_shares@[i])@.len() == values@.len(),
            forall|i: int| 0 <= i < N - 1 ==> (#[trigger] random_mac_shares@[i])@.len() == values@.len(),
        ensures
            vec_split(r, values@, masks@, random_value_shares@, random_mac_shares@, self.key()),
    {
        let size = values.len();
        let mut masked: Vec<S::SemiShrType> = Vec::with_capacity(size);
        let mut macs: Vec<S::SemiShrType> = Vec::with_capacity(size);
        for idx in 0..size
            invariant
                size == values@.len(),
                masks@.len() == size,
                self.well_formed(),
                masked@.len() == idx,
                macs@.len() == idx,
                forall|j: int| 0 <= j < idx ==> #[trigger] masked@[j].value() == masked_value::<S>(values@[j].value(), masks@[j].value()),
                forall|j: int| 0 <= j < idx ==> #[trigger] macs@[j].value() == (masked@[j].value() * self.key()) % modulus::<S::SemiShrType>(),
        {
            let mv = Self::masked(values[idx], masks[idx]);
            masked.push(mv);
            macs.push(mv.wrapping_mul(self.global_key_as_semi));
        }
        let last_value = Self::last_row(&random_value_shares, &masked);
        let last_mac = Self::last_row(&random_mac_shares, &macs);
        let ghost rv = random_value_shares@;
        let ghost rm = random_mac_shares@;
        let mut value_shares = random_value_shares;
        let mut mac_shares = random_mac_shares;
        value_shares.push(last_value);
        mac_shares.push(last_mac);
        proof {
            assert(value_shares@ == rv.push(last_value));
            assert(mac_shares@ == rm.push(last_mac));
        }
        AllPartiesSharesVec { value_shares, mac_shares }
    }

    /// Vectorized shares with random masks and random rows for parties 0..N-1.
    pub fn generate_all_parties_shares_vec(&self, values: &[S::ClearType]) -> (r: AllPartiesSharesVec<S, N>)
        requires
            self.well_formed(),
            N >= 1,
        ensures
            shares_hide::<S>(r.value_shares@, r.mac_shares@, crate::share::values(values@), self.key(), N as int),
    {
        let size = values.len();
        let mut masks: Vec<S::KeyShrType> = Vec::with_capacity(size);
        for i in 0..size
            invariant
                masks@.len() == i,
        {
            masks.push(S::KeyShrType::zero());
        }
        fill_random(&mut masks);
        let mut value_rows: Vec<Vec<S::SemiShrType>> = Vec::with_capacity(N - 1);
        let mut mac_rows: Vec<Vec<S::SemiShrType>> = Vec::with_capacity(N - 1);
        for i in 0..N - 1
            invariant
                N >= 1,
                value_rows@.len() == i,
                mac_rows@.len() == i,
                forall|j: int| 0 <= j < i ==> (#[trigger] value_rows@[j])@.len() == size,
                forall|j: int| 0 <= j < i ==> (#[trigger] mac_rows@[j])@.len() == size,
        {
            let mut vrow: Vec<S::SemiShrType> = Vec::with_capacity(size);
            let mut mrow: Vec<S::SemiShrType> = Vec::with_capacity(size);
            for j in 0..size
                invariant
                    vrow@.len() == j,
                    mrow@.len() == j,
            {
                vrow.push(S::SemiShrType::zero());
                mrow.push(S::SemiShrType::zero());
            }
            fill_random(&mut vrow);
            fill_random(&mut mrow);
            value_rows.push(vrow);
            mac_rows.push(mrow);
        }
        let r = self.generate_all_parties_shares_vec_from(values, masks.as_slice(), value_rows, mac_rows);
        proof {
            let ms = crate::share::values(masks@);
            assert(ms.len() == values@.len());
            S::lemma_widths();
            assert forall|idx: int| 0 <= idx < values@.len() implies 0 <= #[trigger] ms[idx] < pow2(S::S_BITS as nat) by {
                S::KeyShrType::lemma_value_bounds(masks@[idx]);
            }
        }
        r
    }

    /// Appends the encoding of each party's shares to that party's file.
    pub fn write_shares_to_all_parties(&mut self, shares: &Vec<Vec<S::SemiShrType>>)
        requires
            old(self).well_formed(),
            shares@.len() == N,
        ensures
            final(self).well_formed(),
            final(self).key() == old(self).key(),
            final(self).key_share_values() == old(self).key_share_values(),
            final(self).pending().len() == N,
            forall|i: int| 0 <= i < N ==> #[trigger] final(self).pending()[i] == old(self).pending()[i] + seq_to_bytes(shares@[i]@),
    {
        for party_idx in 0..N
            invariant
                self.well_formed(),
                shares@.len() == N,
                self.key() == old(self).key(),
                self.key_share_values() == old(self).key_share_values(),
                forall|i: int| 0 <= i < party_idx ==> #[trigger] self.pending()[i] == old(self).pending()[i] + seq_to_bytes(shares@[i]@),
                forall|i: int| party_idx <= i < N ==> #[trigger] self.pending()[i] == old(self).pending()[i],
        {
            self.write_shares_to_ith_party(shares[party_idx].as_slice(), party_idx);
        }
    }

    /// Appends the encoding of `values` to party `party_id`'s file.
    pub fn write_shares_to_ith_party(&mut self, values: &[S::SemiShrType], party_id: usize)
        requires
            old(self).well_formed(),
            party_id < N,
        ensures
            final(self).well_formed(),
            final(self).key() == old(self).key(),
            final(self).key_share_values() == old(self).key_share_values(),
            final(self).pending() == old(self).pending().update(party_id as int, old(self).pending()[party_id as int] + seq_to_bytes(values@)),
    {
        let mut bytes = slice_as_bytes(values);
        self.append_bytes(party_id, &mut bytes);
    }

    /// Appends the encoding of the clear values to party `party_id`'s file.
    pub fn write_clear_to_ith_party(&mut self, values: &[S::ClearType], party_id: usize)
        requires
            old(self).well_formed(),
            party_id < N,
        ensures
            final(self).well_formed(),
            final(self).key() == old(self).key(),
            final(self).key_share_values() == old(self).key_share_values(),
            final(self).pending() == old(self).pending().update(party_id as int, old(self).pending()[party_id as int] + seq_to_bytes(values@)),
    {
        let mut bytes = slice_as_bytes(values);
        self.append_bytes(party_id, &mut bytes);
    }

    /// Appends the clear values, widened to SemiShrType, to every party's file.
    pub fn write_clear_to_all_parties(&mut self, values: &[S::ClearType])
        requires
            old(self).well_formed(),
        ensures
            final(self).well_formed(),
            final(self).key() == old(self).key(),
            final(self).key_share_values() == old(self).key_share_values(),
            final(self).pending().len() == N,
            forall|i: int| 0 <= i < N ==> #[trigger] final(self).pending()[i] == old(self).pending()[i] + widened_bytes::<S>(values@),
    {
        let n = values.len();
        let mut widened: Vec<S::SemiShrType> = Vec::with_capacity(n);
        for j in 0..n
            invariant
                n == values@.len(),
                widened@.len() == j,
                forall|k: int| 0 <= k < j ==> #[trigger] widened@[k].value() == values@[k].value(),
        {
            proof {
                S::lemma_widths();
                S::ClearType::lemma_value_bounds(values@[j as int]);
                lemma_pow2_le(S::K_BITS as nat, (S::K_BITS + S::S_BITS) as nat);
                vstd::arithmetic::div_mod::lemma_small_mod(values@[j as int].value() as nat, pow2(S::SemiShrType::width()));
            }
            widened.push(widen::<S::ClearType, S::SemiShrType>(values[j]));
        }
        proof {
            assert(crate::share::values(widened@) =~= crate::share::values(values@));
            lemma_wide_unique::<S>(widened@, values@);
        }
        let bytes = slice_as_bytes(widened.as_slice());
        for party_idx in 0..N
            invariant
                self.well_formed(),
                bytes@ == seq_to_bytes(widened@),
                self.key() == old(self).key(),
                self.key_share_values() == old(self).key_share_values(),
                forall|i: int| 0 <= i < party_idx ==> #[trigger] self.pending()[i] == old(self).pending()[i] + seq_to_bytes(widened@),
                forall|i: int| party_idx <= i < N ==> #[trigger] self.pending()[i] == old(self).pending()[i],
        {
            let mut b = bytes.clone();
            proof {
                assert(b@ =~= bytes@);
            }
            self.append_bytes(party_idx, &mut b);
        }
    }

    fn append_bytes(&mut self, party_id: usize, bytes: &mut Vec<u8>)
        requires
            old(self).well_formed(),
            party_id < N,
        ensures
            final(self).well_formed(),
            final(self).key() == old(self).key(),
            final(self).key_share_values() == old(self).key_share_values(),
            final(self).pending() == old(self).pending().update(party_id as int, old(self).pending()[party_id as int] + old(bytes)@),
    {
        let out = &mut self.outputs[party_id];
        out.append(bytes);
        proof {
            assert(self.pending() =~= old(self).pending().update(party_id as int, old(self).pending()[party_id as int] + old(bytes)@));
        }
    }

    /// Hands over the bytes collected for each party's file and starts afresh.
    pub fn take_pending(&mut self) -> (r: Vec<Vec<u8>>)
        requires
            old(self).well_formed(),
        ensures
            final(self).well_formed(),
            final(self).key() == old(self).key(),
            final(self).key_share_values() == old(self).key_share_values(),
            r@.map_values(|o: Vec<u8>| o@) == old(self).pending(),
            final(self).pending().len() == N,
            forall|i: int| 0 <= i < N ==> #[trigger] final(self).pending()[i] == Seq::<u8>::empty(),
    {
        let mut fresh: Vec<Vec<u8>> = Vec::with_capacity(N);
        for i in 0..N
            invariant
                fresh@.len() == i,
                forall|j: int| 0 <= j < i ==> #[trigger] fresh@[j]@ == Seq::<u8>::empty(),
        {
            fresh.push(Vec::new());
        }
        std::mem::swap(&mut self.outputs, &mut fresh);
        proof {
            assert(fresh@.map_values(|o: Vec<u8>| o@) =~= old(self).pending());
        }
        fresh
    }

    /// mask * 2^K + value in Z_{2^{K+S}}.
    fn masked(value: S::ClearType, mask: S::KeyShrType) -> (r: S::SemiShrType)
        ensures
            r.value() == masked_value::<S>(value.value(), mask.value()),
    {
        proof {
            S::lemma_widths();
            S::ClearType::lemma_value_bounds(value);
            S::KeyShrType::lemma_value_bounds(mask);
            lemma_masked_fits::<S>(value.value(), mask.value());
            lemma_pow2_le(S::S_BITS as nat, (S::K_BITS + S::S_BITS) as nat);
            lemma_pow2_le(S::K_BITS as nat, (S::K_BITS + S::S_BITS) as nat);
            vstd::arithmetic::div_mod::lemma_small_mod(mask.value() as nat, pow2(S::SemiShrType::width()));
            vstd::arithmetic::div_mod::lemma_small_mod(value.value() as nat, pow2(S::SemiShrType::width()));
            vstd::arithmetic::div_mod::lemma_small_mod(masked_value::<S>(value.value(), mask.value()) as nat, pow2(S::SemiShrType::width()));
        }
        let mask_wide = widen::<S::KeyShrType, S::SemiShrType>(mask);
        let value_wide = widen::<S::ClearType, S::SemiShrType>(value);
        mask_wide.shl(S::K_BITS).wrapping_add(value_wide)
    }

    /// Additive shares of `target`: the given random shares for parties
    /// 0..N-1 and target minus their sum for the last party.
    fn complete_shares(target: S::SemiShrType, randoms: &Vec<S::SemiShrType>) -> (r: Vec<S::SemiShrType>)
        requires
            N >= 1,
            randoms@.len() == N - 1,
        ensures
            r@.len() == N,
            forall|i: int| 0 <= i < N - 1 ==> #[trigger] r@[i] == randoms@[i],
            seq_sum(values(r@)) % modulus::<S::SemiShrType>() == target.value(),
    {
        let ghost m = modulus::<S::SemiShrType>();
        let mut shares: Vec<S::SemiShrType> = Vec::with_capacity(N);
        let mut sum = S::SemiShrType::zero();
        proof {
            S::SemiShrType::lemma_value_bounds(sum);
            vstd::arithmetic::div_mod::lemma_small_mod(0, m as nat);
            assert(values(shares@) =~= Seq::<int>::empty());
        }
        for i in 0..N - 1
            invariant
                N >= 1,
                randoms@.len() == N - 1,
                m == modulus::<S::SemiShrType>(),
                m > 0,
                shares@.len() == i,
                forall|j: int| 0 <= j < i ==> #[trigger] shares@[j] == randoms@[j],
                sum.value() == seq_sum(values(shares@)) % m,
        {
            let ghost pre = values(shares@);
            shares.push(randoms[i]);
            proof {
                assert(values(shares@) =~= pre.push(randoms@[i as int].value()));
                lemma_seq_sum_push(pre, randoms@[i as int].value());
                lemma_mod_ops(seq_sum(pre), randoms@[i as int].value(), m);
            }
            sum = sum.wrapping_add(randoms[i]);
        }
        let last = target.wrapping_sub(sum);
        let ghost pre = values(shares@);
        shares.push(last);
        proof {
            assert(values(shares@) =~= pre.push(last.value()));
            lemma_seq_sum_push(pre, last.value());
            let t = target.value();
            let sm = seq_sum(pre);
            lemma_mod_ops(t, sm, m);
            lemma_mod_ops(sm, t - sm, m);
            lemma_mod_ops(sm, (t - sm) % m, m);
            S::SemiShrType::lemma_value_bounds(target);
            vstd::arithmetic::div_mod::lemma_small_mod(t as nat, m as nat);
        }
        shares
    }

    /// The shares of `value` under the given mask, random shares of the value
    /// for parties 0..N-1 and random shares of the MAC for parties 0..N-1.
    pub fn generate_all_parties_shares_from(
        &self,
        value: S::ClearType,
        mask: S::KeyShrType,
        random_value_shares: &Vec<S::SemiShrType>,
        random_mac_shares: &Vec<S::SemiShrType>,
    ) -> (r: AllPartiesShares<S, N>)
        requires
            self.well_formed(),
            N >= 1,
            random_value_shares@.len() == N - 1,
            random_mac_shares@.len() == N - 1,
        ensures
            one_split(r, value, mask, random_value_shares@, random_mac_shares@, self.key()),
    {
        let masked_value = Self::masked(value, mask);
        let mac = masked_value.wrapping_mul(self.global_key_as_semi);
        let value_shares = Self::complete_shares(masked_value, random_value_shares);
        let mac_shares = Self::complete_shares(mac, random_mac_shares);
        AllPartiesShares { value_shares, mac_shares }
    }

    /// Shares of `value` and of its MAC, with a random mask and random shares
    /// for parties 0..N-1.
    pub fn generate_all_parties_shares(&self, value: S::ClearType) -> (r: AllPartiesShares<S, N>)
        requires
            self.well_formed(),
            N >= 1,
        ensures
            r.value_shares@.len() == N,
            r.mac_shares@.len() == N,
            exists|mask: int|
                0 <= mask < pow2(S::S_BITS as nat) && seq_sum(values(r.value_shares@)) % modulus::<S::SemiShrType>() == masked_value::<S>(value.value(), mask)
                    && #[trigger] (seq_sum(values(r.mac_shares@)) % modulus::<S::SemiShrType>()) == (masked_value::<S>(value.value(), mask) * self.key()) % modulus::<S::SemiShrType>(),
    {
        let mask = S::KeyShrType::random();
        let mut random_value_shares: Vec<S::SemiShrType> = Vec::with_capacity(N - 1);
        for i in 0..N - 1
            invariant
                random_value_shares@.len() == i,
        {
            random_value_shares.push(S::SemiShrType::random());
        }
        let mut random_mac_shares: Vec<S::SemiShrType> = Vec::with_capacity(N - 1);
        for i in 0..N - 1
            invariant
                random_mac_shares@.len() == i,
        {
            random_mac_shares.push(S::SemiShrType::random());
        }
        let r = self.generate_all_parties_shares_from(value, mask, &random_value_shares, &random_mac_shares);
        proof {
            S::lemma_widths();
            S::KeyShrType::lemma_value_bounds(mask);
        }
        r
    }
}


/// 2^K divides the share ring's size 2^(K+S).
pub proof fn lemma_clear_modulus_divides<S: Spdz2kShare>()
    ensures
        modulus::<S::ClearType>() > 0,
        modulus::<S::SemiShrType>() > 0,
        modulus::<S::SemiShrType>() % modulus::<S::ClearType>() == 0,
        modulus::<S::ClearType>() == pow2(S::K_BITS as nat),
{
    S::lemma_widths();
    let pk = pow2(S::K_BITS as nat) as int;
    let ps = pow2(S::S_BITS as nat) as int;
    vstd::arithmetic::power2::lemma_pow2_adds(S::K_BITS as nat, S::S_BITS as nat);
    vstd::arithmetic::power2::lemma_pow2_pos(S::K_BITS as nat);
    vstd::arithmetic::power2::lemma_pow2_pos(S::S_BITS as nat);
    assert(pk * ps > 0) by (nonlinear_arith)
        requires
            pk > 0,
            ps > 0,
    ;
    vstd::arithmetic::div_mod::lemma_mod_multiples_basic(ps, pk);
    assert(ps * pk == pk * ps) by (nonlinear_arith);
}

/// Law (two parties): shares that hide a value open to it. The two parties'
/// value shares of entry idx add up to the clear value modulo 2^K, and their
/// MAC shares add up to the key times the sum of the value shares modulo
/// 2^(K+S).
pub proof fn lemma_two_party_shares<S: Spdz2kShare>(value_shares: Seq<Vec<S::SemiShrType>>, mac_shares: Seq<Vec<S::SemiShrType>>, clears: Seq<int>, key: int, idx: int)
    requires
        shares_hide::<S>(value_shares, mac_shares, clears, key, 2),
        0 <= idx < clears.len(),
    ensures
        crate::ring::cong(value_shares[0]@[idx].value() + value_shares[1]@[idx].value(), clears[idx], modulus::<S::ClearType>()),
        crate::ring::cong(
            mac_shares[0]@[idx].value() + mac_shares[1]@[idx].value(),
            key * (value_shares[0]@[idx].value() + value_shares[1]@[idx].value()),
            modulus::<S::SemiShrType>(),
        ),
{
    lemma_clear_modulus_divides::<S>();
    let pk = modulus::<S::ClearType>();
    let big = modulus::<S::SemiShrType>();
    let masks = choose|masks: Seq<int>|
        #![trigger masks.len()]
        masks.len() == clears.len()
        && (forall|idx: int| 0 <= idx < clears.len() ==> 0 <= #[trigger] masks[idx] < pow2(S::S_BITS as nat))
        && (forall|idx: int| 0 <= idx < clears.len() ==> seq_sum(#[trigger] column(row_values(value_shares), idx)) % modulus::<S::SemiShrType>() == masked_value::<S>(clears[idx], masks[idx]))
        && (forall|idx: int| 0 <= idx < clears.len() ==> seq_sum(#[trigger] column(row_values(mac_shares), idx)) % modulus::<S::SemiShrType>() == (masked_value::<S>(clears[idx], masks[idx]) * key) % modulus::<S::SemiShrType>());
    let v0 = value_shares[0]@[idx].value();
    let v1 = value_shares[1]@[idx].value();
    let m0 = mac_shares[0]@[idx].value();
    let m1 = mac_shares[1]@[idx].value();
    let vc = column(row_values(value_shares), idx);
    let mc = column(row_values(mac_shares), idx);
    assert(value_shares[0]@.len() == clears.len() && value_shares[1]@.len() == clears.len());
    assert(mac_shares[0]@.len() == clears.len() && mac_shares[1]@.len() == clears.len());
    assert(vc[0] == v0 && vc[1] == v1);
    assert(mc[0] == m0 && mc[1] == m1);
    assert(vc.drop_last().drop_last().len() == 0);
    assert(seq_sum(vc) == v0 + v1) by {
        assert(vc.drop_last()[0] == v0);
        assert(seq_sum(vc.drop_last()) == seq_sum(vc.drop_last().drop_last()) + v0);
    }
    assert(mc.drop_last().drop_last().len() == 0);
    assert(seq_sum(mc) == m0 + m1) by {
        assert(mc.drop_last()[0] == m0);
        assert(seq_sum(mc.drop_last()) == seq_sum(mc.drop_last().drop_last()) + m0);
    }
    let mv = masked_value::<S>(clears[idx], masks[idx]);
    assert((v0 + v1) % big == mv);
    assert((m0 + m1) % big == (mv * key) % big);
    // the value shares
    crate::ring::lemma_cong_mod(v0 + v1, big);
    crate::ring::lemma_cong_divides(v0 + v1, mv, big, pk);
    vstd::arithmetic::div_mod::lemma_mod_multiples_vanish(masks[idx], clears[idx], pk);
    assert(mv == pk * masks[idx] + clears[idx]) by (nonlinear_arith)
        requires
            mv == masks[idx] * pk + clears[idx],
    ;
    // the MAC shares
    crate::ring::lemma_cong((v0 + v1) % big, v0 + v1, key, key, big);
    crate::ring::lemma_cong_mod(mv * key, big);
    assert((v0 + v1) % big * key == key * ((v0 + v1) % big)) by (nonlinear_arith);
    assert((v0 + v1) * key == key * (v0 + v1)) by (nonlinear_arith);
}

/// Law (two parties): the dealer's key is, modulo 2^(K+S), the sum of the
/// two parties' key shares, as the MAC laws of the dealt products ask.
pub proof fn lemma_two_party_key<S: Spdz2kShare>(key: int, key_shares: Seq<int>)
    requires
        key_shares.len() == 2,
        key == seq_sum(key_shares) % modulus::<S::GlobalKeyType>(),
    ensures
        crate::ring::cong(key, key_shares[0] + key_shares[1], modulus::<S::SemiShrType>()),
{
    lemma_clear_modulus_divides::<S>();
    S::lemma_widths();
    let ks = key_shares;
    assert(ks.drop_last().drop_last().len() == 0);
    assert(seq_sum(ks) == ks[0] + ks[1]) by {
        assert(ks.drop_last()[0] == ks[0]);
        assert(seq_sum(ks.drop_last()) == seq_sum(ks.drop_last().drop_last()) + ks[0]);
    }
    crate::ring::lemma_cong_mod(ks[0] + ks[1], modulus::<S::SemiShrType>());
}

/// The last entry of a sum modulo m is fixed by the others: two sequences
/// that agree but on their last entries, both in [0, m), with equal sums
/// modulo m, agree on it too.
proof fn lemma_last_fixed(s: Seq<int>, t: Seq<int>, m: int)
    requires
        m > 0,
        s.len() == t.len(),
        s.len() >= 1,
        s.drop_last() == t.drop_last(),
        0 <= s.last() < m,
        0 <= t.last() < m,
        seq_sum(s) % m == seq_sum(t) % m,
    ensures
        s.last() == t.last(),
{
    let p = seq_sum(s.drop_last());
    let x = s.last();
    let y = t.last();
    assert(seq_sum(s) == p + x);
    assert(seq_sum(t) == p + y);
    lemma_mod_ops(p, x, m);
    lemma_mod_ops(p, y, m);
    let q = p % m;
    vstd::arithmetic::div_mod::lemma_mod_bound(p, m);
    assert((q + x) % m == (q + y) % m);
    if q + x < m {
        vstd::arithmetic::div_mod::lemma_small_mod((q + x) as nat, m as nat);
    } else {
        vstd::arithmetic::div_mod::lemma_fundamental_div_mod_converse(q + x, m, 1, q + x - m);
    }
    if q + y < m {
        vstd::arithmetic::div_mod::lemma_small_mod((q + y) as nat, m as nat);
    } else {
        vstd::arithmetic::div_mod::lemma_fundamental_div_mod_converse(q + y, m, 1, q + y - m);
    }
}

/// Law (vectorized shares): splitting a vector of clear values gives, entry
/// by entry, the same shares as splitting each value alone with the same
/// mask and the same random shares for parties 0..N-1.
pub proof fn lemma_vec_split_matches<S: Spdz2kShare, const N: usize>(
    rv: AllPartiesSharesVec<S, N>,
    clears: Seq<S::ClearType>,
    masks: Seq<S::KeyShrType>,
    rand_values: Seq<Vec<S::SemiShrType>>,
    rand_macs: Seq<Vec<S::SemiShrType>>,
    key: int,
    one: AllPartiesShares<S, N>,
    one_values: Seq<S::SemiShrType>,
    one_macs: Seq<S::SemiShrType>,
    idx: int,
)
    requires
        N >= 1,
        0 <= idx < clears.len(),
        vec_split(rv, clears, masks, rand_values, rand_macs, key),
        one_split(one, clears[idx], masks[idx], one_values, one_macs, key),
        forall|i: int| 0 <= i < N - 1 ==> #[trigger] one_values[i] == rand_values[i]@[idx] && one_macs[i] == rand_macs[i]@[idx],
    ensures
        forall|i: int| 0 <= i < N ==> #[trigger] one.value_shares@[i] == rv.value_shares@[i]@[idx] && one.mac_shares@[i] == rv.mac_shares@[i]@[idx],
{
    let m = modulus::<S::SemiShrType>();
    S::SemiShrType::lemma_value_bounds(S::SemiShrType::spec_from_bytes(Seq::<u8>::empty()));
    vstd::arithmetic::power2::lemma_pow2_pos(S::SemiShrType::width());
    let vc = column(row_values(rv.value_shares@), idx);
    let mc = column(row_values(rv.mac_shares@), idx);
    let ov = values(one.value_shares@);
    let om = values(one.mac_shares@);
    let last = N - 1;
    assert forall|i: int| 0 <= i < last implies #[trigger] one.value_shares@[i] == rv.value_shares@[i]@[idx] && one.mac_shares@[i] == rv.mac_shares@[i]@[idx] by {
        assert(one_values[i] == rand_values[i]@[idx]);
    }
    assert(vc.drop_last() =~= ov.drop_last()) by {
        assert forall|i: int| 0 <= i < last implies vc[i] == ov[i] by {
            assert(one.value_shares@[i] == rv.value_shares@[i]@[idx]);
            assert(rv.value_shares@[i]@.len() == clears.len());
        }
    }
    assert(mc.drop_last() =~= om.drop_last()) by {
        assert forall|i: int| 0 <= i < last implies mc[i] == om[i] by {
            assert(one.value_shares@[i] == rv.value_shares@[i]@[idx] && one.mac_shares@[i] == rv.mac_shares@[i]@[idx]);
            assert(rv.mac_shares@[i]@.len() == clears.len());
        }
    }
    assert(rv.value_shares@[last]@.len() == clears.len() && rv.mac_shares@[last]@.len() == clears.len());
    let x = rv.value_shares@[last]@[idx];
    let y = one.value_shares@[last];
    let xm = rv.mac_shares@[last]@[idx];
    let ym = one.mac_shares@[last];
    S::SemiShrType::lemma_value_bounds(x);
    S::SemiShrType::lemma_value_bounds(y);
    S::SemiShrType::lemma_value_bounds(xm);
    S::SemiShrType::lemma_value_bounds(ym);
    assert(vc.last() == x.value() && ov.last() == y.value());
    assert(mc.last() == xm.value() && om.last() == ym.value());
    lemma_last_fixed(vc, ov, m);
    lemma_last_fixed(mc, om, m);
    S::SemiShrType::lemma_value_injective(x, y);
    S::SemiShrType::lemma_value_injective(xm, ym);
    assert forall|i: int| 0 <= i < N implies #[trigger] one.value_shares@[i] == rv.value_shares@[i]@[idx] && one.mac_shares@[i] == rv.mac_shares@[i]@[idx] by {
        if i < last {
            assert(one_values[i] == rand_values[i]@[idx] && one_macs[i] == rand_macs[i]@[idx]);
            assert(one.value_shares@[i] == one_values[i] && one.mac_shares@[i] == one_macs[i]);
            assert(rv.value_shares@[i] == rand_values[i] && rv.mac_shares@[i] == rand_macs[i]);
        }
    }
}
} // verus!
