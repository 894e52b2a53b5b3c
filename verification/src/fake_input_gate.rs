//! The dealer's input gates: a random mask lambda, shared among the parties;
//! the owner of the input also gets lambda in the clear.
use crate::dealer::{lemma_wide_unique, shares_hide, widened_bytes, FakeParty};
use crate::fake_gate::{fake_fresh, random_vec, FakeGate, FakeGateData};
use crate::gate::size_ok;
use crate::share::{seq_to_bytes, values, widen_all, ShareElement, Spdz2kShare};
use vstd::prelude::*;

verus! {

pub struct FakeInputGate<S: Spdz2kShare, const N: usize> {
    pub data: FakeGateData<S, N>,
    owner_id: usize,
}

impl<S: Spdz2kShare, const N: usize> FakeInputGate<S, N> {
    pub closed spec fn owner(&self) -> usize {
        self.owner_id
    }

    pub fn new(dim_row: usize, dim_col: usize, owner_id: usize) -> (r: Self)
        ensures
            fake_fresh(r.fake_data(), dim_row, dim_col, None, None),
            r.owner() == owner_id,
    {
        FakeInputGate { data: FakeGateData::new_with_dims(dim_row, dim_col), owner_id }
    }

    pub fn owner_id(&self) -> (r: usize)
        ensures
            r == self.owner(),
    {
        self.owner_id
    }

    /// Deals a random mask: the owner's file gets lambda (in the share ring),
    /// then every party's file its shares of lambda and of its MAC.
    pub fn do_run_offline(&mut self, party: &mut FakeParty<S, N>)
        requires
            old(party).well_formed(),
            N >= 1,
            old(self).owner() < N,
            size_ok(old(self).fake_data().dim_row as int, old(self).fake_data().dim_col as int),
        ensures
            final(self).owner() == old(self).owner(),
            final(self).fake_data() == (FakeGateData::<S, N> {
                lambda_clear: final(self).fake_data().lambda_clear,
                lambda_shr: final(self).fake_data().lambda_shr,
                lambda_shr_mac: final(self).fake_data().lambda_shr_mac,
                evaluated_offline: true,
                ..old(self).fake_data()
            }),
            final(self).fake_data().lambda_clear@.len() == old(self).fake_data().dim_row * old(self).fake_data().dim_col,
            shares_hide::<S>(final(self).fake_data().lambda_shr@, final(self).fake_data().lambda_shr_mac@, values(final(self).fake_data().lambda_clear@), old(party).key(), N as int),
            final(party).well_formed(),
            final(party).key() == old(party).key(),
            final(party).key_share_values() == old(party).key_share_values(),
            final(party).pending().len() == N,
            forall|i: int| 0 <= i < N ==> #[trigger] final(party).pending()[i] == old(party).pending()[i]
                + (if i == old(self).owner() { widened_bytes::<S>(final(self).fake_data().lambda_clear@) } else { Seq::<u8>::empty() })
                + seq_to_bytes(final(self).fake_data().lambda_shr@[i]@)
                + seq_to_bytes(final(self).fake_data().lambda_shr_mac@[i]@),
    {
        let size = self.data.dim_row * self.data.dim_col;
        let lambda_clear = random_vec::<S::ClearType>(size);
        let shares = party.generate_all_parties_shares_vec(lambda_clear.as_slice());
        proof {
            S::lemma_widths();
        }
        let wide = widen_all::<S::ClearType, S::SemiShrType>(lambda_clear.as_slice());
        proof {
            lemma_wide_unique::<S>(wide@, lambda_clear@);
        }
        proof {
            party.lemma_pending_len();
        }
        let ghost p0 = party.pending();
        party.write_shares_to_ith_party(wide.as_slice(), self.owner_id);
        let ghost p1 = party.pending();
        party.write_shares_to_all_parties(&shares.value_shares);
        party.write_shares_to_all_parties(&shares.mac_shares);
        proof {
            assert forall|i: int| 0 <= i < N implies #[trigger] p1[i] == p0[i] + (if i == self.owner_id { widened_bytes::<S>(lambda_clear@) } else { Seq::<u8>::empty() }) by {
                if i != self.owner_id {
                    assert(p0[i] + Seq::<u8>::empty() =~= p0[i]);
                }
            }
        }
        self.data.lambda_clear = lambda_clear;
        self.data.lambda_shr = shares.value_shares;
        self.data.lambda_shr_mac = shares.mac_shares;
        self.data.evaluated_offline = true;
    }
}

impl<S: Spdz2kShare, const N: usize> FakeGate<S, N> for FakeInputGate<S, N> {
    closed spec fn fake_data(&self) -> FakeGateData<S, N> {
        self.data
    }

    open spec fn gate_name(&self) -> Seq<char> {
        "FakeInputGate"@
    }

    fn name(&self) -> &'static str {
        "FakeInputGate"
    }

    fn dim_row(&self) -> usize {
        self.data.dim_row
    }

    fn dim_col(&self) -> usize {
        self.data.dim_col
    }

    fn input_x(&self) -> Option<usize> {
        self.data.input_x
    }

    fn input_y(&self) -> Option<usize> {
        self.data.input_y
    }

    fn lambda_clear(&self) -> &Vec<S::ClearType> {
        &self.data.lambda_clear
    }

    fn lambda_shr(&self) -> &Vec<Vec<S::SemiShrType>> {
        &self.data.lambda_shr
    }

    fn lambda_shr_mac(&self) -> &Vec<Vec<S::SemiShrType>> {
        &self.data.lambda_shr_mac
    }

    fn is_evaluated_offline(&self) -> bool {
        self.data.evaluated_offline
    }
}

} // verus!
