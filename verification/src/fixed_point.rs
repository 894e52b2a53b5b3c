//! Fixed-point numbers with FRACTION_BITS fractional bits in Z_{2^w}.
use crate::share::{values, ShareElement};
use vstd::arithmetic::power2::pow2;
use vstd::prelude::*;

verus! {

pub const FRACTION_BITS: usize = 16;

pub const TRUNCATE_VALUE: u64 = 65536;

/// x / 2^FRACTION_BITS, rounding down (a logical shift).
pub open spec fn truncated(x: int) -> int {
    x / 65536
}

proof fn lemma_pow2_16()
    ensures
        pow2(FRACTION_BITS as nat) == 65536,
        pow2(FRACTION_BITS as nat) == TRUNCATE_VALUE,
{
    vstd::arithmetic::power2::lemma2_to64();
}

/// Drops the fractional bits of the product of two fixed-point numbers.
pub fn truncate_clear<T: ShareElement>(x: T) -> (r: T)
    ensures
        r.value() == truncated(x.value()),
{
    proof {
        T::lemma_value_bounds(x);
        lemma_pow2_16();
    }
    x.shr(FRACTION_BITS)
}

pub fn truncate_clear_vec<T: ShareElement>(x: &[T]) -> (r: Vec<T>)
    ensures
        values(r@) == values(x@).map_values(|v: int| truncated(v)),
{
    let n = x.len();
    let mut r: Vec<T> = Vec::with_capacity(n);
    for i in 0..n
        invariant
            n == x@.len(),
            r@.len() == i,
            forall|j: int| 0 <= j < i ==> #[trigger] r@[j].value() == truncated(x@[j].value()),
    {
        r.push(truncate_clear(x[i]));
    }
    assert(values(r@) =~= values(x@).map_values(|v: int| truncated(v)));
    r
}

pub fn truncate_clear_vec_inplace<T: ShareElement>(x: &mut Vec<T>)
    ensures
        values(final(x)@) == values(old(x)@).map_values(|v: int| truncated(v)),
{
    let n = x.len();
    for i in 0..n
        invariant
            n == old(x)@.len(),
            x@.len() == n,
            forall|j: int| 0 <= j < i ==> #[trigger] x@[j].value() == truncated(old(x)@[j].value()),
            forall|j: int| i <= j < n ==> #[trigger] x@[j] == old(x)@[j],
    {
        let v = truncate_clear(x[i]);
        x.set(i, v);
    }
    assert(values(x@) =~= values(old(x)@).map_values(|v: int| truncated(v)));
}

} // verus!
