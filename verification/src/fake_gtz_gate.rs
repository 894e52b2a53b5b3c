//! The dealer's greater-than-zero gates: a random mask lambda, shared
//! additively with MACs, and shared again bit-wise: N elements whose
//! exclusive or is lambda.
use crate::dealer::{shares_hide, FakeParty};
use crate::fake_gate::{fake_fresh, random_vec, FakeGate, FakeGateData};
use crate::gate::size_ok;
use crate::share::{seq_to_bytes, values, ShareElement, Spdz2kShare};
use vstd::prelude::*;

verus! {

/// The exclusive or of a non-empty sequence of elements.
pub open spec fn xor_fold<T: ShareElement>(s: Seq<T>) -> T
    decreases s.len(),
{
    if s.len() <= 1 {
        s[0]
    } else {
        T::spec_xor(xor_fold(s.drop_last()), s.last())
    }
}

/// Entry idx of every row.
pub open spec fn column_of<T>(rows: Seq<Vec<T>>, idx: int) -> Seq<T> {
    Seq::new(rows.len(), |i: int| rows[i]@[idx])
}

pub struct FakeGtzGate<S: Spdz2kShare, const N: usize> {
    pub data: FakeGateData<S, N>,
}

impl<S: Spdz2kShare, const N: usize> FakeGtzGate<S, N> {
    pub fn new(input_x: usize, dim_row: usize, dim_col: usize) -> (r: Self)
        ensures
            fake_fresh(r.fake_data(), dim_row, dim_col, Some(input_x), None),
    {
        let mut data = FakeGateData::new_with_inputs(input_x, None);
        data.dim_row = dim_row;
        data.dim_col = dim_col;
        FakeGtzGate { data }
    }

    /// N boolean shares of x: N - 1 random elements and the exclusive or of
    /// x with all of them.
    pub fn generate_boolean_shares(x: S::ClearType) -> (r: Vec<S::ClearType>)
        requires
            N >= 1,
        ensures
            r@.len() == N,
            xor_fold(r@) == x,
    {
        let mut ret: Vec<S::ClearType> = Vec::with_capacity(N);
        let mut val = x;
        for i in 0..N - 1
            invariant
                N >= 1,
                ret@.len() == i,
                i == 0 ==> val == x,
                i > 0 ==> val == S::ClearType::spec_xor(x, xor_fold(ret@)),
        {
            let r = S::ClearType::random();
            proof {
                if i > 0 {
                    let pre = ret@;
                    assert(ret@.push(r).drop_last() =~= pre);
                    S::ClearType::lemma_xor(x, xor_fold(pre), r);
                } else {
                    assert(ret@.push(r).len() == 1);
                }
            }
            let ghost pre = ret@;
            val = val.bitxor(r);
            ret.push(r);
            proof {
                assert(ret@.drop_last() =~= pre);
            }
        }
        let ghost pre = ret@;
        ret.push(val);
        proof {
            assert(ret@.drop_last() =~= pre);
            if N > 1 {
                let f = xor_fold(pre);
                S::ClearType::lemma_xor(f, x, f);
                S::ClearType::lemma_xor(x, f, f);
                S::ClearType::lemma_xor(f, f, x);
                S::ClearType::lemma_xor(x, S::ClearType::spec_xor(f, f), x);
            }
        }
        ret
    }

    /// Deals a random mask: its shares and MAC shares to every party's file,
    /// then each party's boolean shares of the input's mask `lambda_x`, which
    /// the parties compare Delta_x with.
    pub fn do_run_offline(&mut self, lambda_x: &Vec<S::ClearType>, party: &mut FakeParty<S, N>)
        requires
            old(party).well_formed(),
            N >= 1,
            size_ok(old(self).fake_data().dim_row as int, old(self).fake_data().dim_col as int),
            lambda_x@.len() >= old(self).fake_data().dim_row * old(self).fake_data().dim_col,
        ensures
            final(self).fake_data() == (FakeGateData::<S, N> {
                lambda_clear: final(self).fake_data().lambda_clear,
                lambda_shr: final(self).fake_data().lambda_shr,
                lambda_shr_mac: final(self).fake_data().lambda_shr_mac,
                evaluated_offline: true,
                ..old(self).fake_data()
            }),
            final(self).fake_data().lambda_clear@.len() == old(self).fake_data().dim_row * old(self).fake_data().dim_col,
            shares_hide::<S>(final(self).fake_data().lambda_shr@, final(self).fake_data().lambda_shr_mac@, values(final(self).fake_data().lambda_clear@), old(party).key(), N as int),
            final(party).well_formed(),
            final(party).key() == old(party).key(),
            final(party).key_share_values() == old(party).key_share_values(),
            final(party).pending().len() == N,
            exists|bool_shares: Seq<Vec<S::ClearType>>|
                #![trigger bool_shares.len()]
                bool_shares.len() == N
                && (forall|i: int| 0 <= i < N ==> (#[trigger] bool_shares[i])@.len() == final(self).fake_data().lambda_clear@.len())
                && (forall|idx: int| 0 <= idx < final(self).fake_data().lambda_clear@.len() ==> xor_fold(#[trigger] column_of(bool_shares, idx)) == lambda_x@[idx])
                && forall|i: int| 0 <= i < N ==> #[trigger] final(party).pending()[i] == old(party).pending()[i]
                    + seq_to_bytes(final(self).fake_data().lambda_shr@[i]@)
                    + seq_to_bytes(final(self).fake_data().lambda_shr_mac@[i]@)
                    + seq_to_bytes(bool_shares[i]@),
    {
        let size = self.data.dim_row * self.data.dim_col;
        let lambda_clear = random_vec::<S::ClearType>(size);
        let shares = party.generate_all_parties_shares_vec(lambda_clear.as_slice());
        party.write_shares_to_all_parties(&shares.value_shares);
        party.write_shares_to_all_parties(&shares.mac_shares);
        proof {
            party.lemma_pending_len();
        }
        let ghost p1 = party.pending();
        let mut bool_shares: Vec<Vec<S::ClearType>> = Vec::with_capacity(N);
        for i in 0..N
            invariant
                bool_shares@.len() == i,
                forall|j: int| 0 <= j < i ==> (#[trigger] bool_shares@[j])@.len() == 0,
        {
            bool_shares.push(Vec::with_capacity(size));
        }
        for idx in 0..size
            invariant
                N >= 1,
                size == lambda_clear@.len(),
                lambda_x@.len() >= size,
                bool_shares@.len() == N,
                forall|i: int| 0 <= i < N ==> (#[trigger] bool_shares@[i])@.len() == idx,
                forall|k: int| 0 <= k < idx ==> xor_fold(#[trigger] column_of(bool_shares@, k)) == lambda_x@[k],
        {
            let sh = Self::generate_boolean_shares(lambda_x[idx]);
            let ghost before = bool_shares@;
            for party_idx in 0..N
                invariant
                    N >= 1,
                    sh@.len() == N,
                    bool_shares@.len() == N,
                    forall|i: int| 0 <= i < party_idx ==> (#[trigger] bool_shares@[i])@ == before[i]@.push(sh@[i]),
                    forall|i: int| party_idx <= i < N ==> (#[trigger] bool_shares@[i]) == before[i],
            {
                bool_shares[party_idx].push(sh[party_idx]);
            }
            proof {
                assert forall|k: int| 0 <= k < idx + 1 implies xor_fold(#[trigger] column_of(bool_shares@, k)) == lambda_x@[k] by {
                    if k < idx {
                        assert(column_of(bool_shares@, k) =~= column_of(before, k));
                    } else {
                        assert(column_of(bool_shares@, k) =~= sh@);
                    }
                }
            }
        }
        for party_idx in 0..N
            invariant
                party.well_formed(),
                bool_shares@.len() == N,
                p1.len() == N,
                party.pending().len() == N,
                party.key() == old(party).key(),
                party.key_share_values() == old(party).key_share_values(),
                forall|i: int| 0 <= i < party_idx ==> #[trigger] party.pending()[i] == p1[i] + seq_to_bytes(bool_shares@[i]@),
                forall|i: int| party_idx <= i < N ==> #[trigger] party.pending()[i] == p1[i],
        {
            party.write_clear_to_ith_party(bool_shares[party_idx].as_slice(), party_idx);
        }
        let ghost bs = bool_shares@;
        self.data.lambda_clear = lambda_clear;
        self.data.lambda_shr = shares.value_shares;
        self.data.lambda_shr_mac = shares.mac_shares;
        self.data.evaluated_offline = true;
        proof {
            party.lemma_pending_len();
            assert(bs.len() == N);
        }
    }
}

impl<S: Spdz2kShare, const N: usize> FakeGate<S, N> for FakeGtzGate<S, N> {
    closed spec fn fake_data(&self) -> FakeGateData<S, N> {
        self.data
    }

    open spec fn gate_name(&self) -> Seq<char> {
        "FakeGtzGate"@
    }

    fn name(&self) -> &'static str {
        "FakeGtzGate"
    }

    fn dim_row(&self) -> usize {
        self.data.dim_row
    }

    fn dim_col(&self) -> usize {
        self.data.dim_col
    }

    fn input_x(&self) -> Option<usize> {
        self.data.input_x
    }

    fn input_y(&self) -> Option<usize> {
        self.data.input_y
    }

    fn lambda_clear(&self) -> &Vec<S::ClearType> {
        &self.data.lambda_clear
    }

    fn lambda_shr(&self) -> &Vec<Vec<S::SemiShrType>> {
        &self.data.lambda_shr
    }

    fn lambda_shr_mac(&self) -> &Vec<Vec<S::SemiShrType>> {
        &self.data.lambda_shr_mac
    }

    fn is_evaluated_offline(&self) -> bool {
        self.data.evaluated_offline
    }
}

} // verus!
