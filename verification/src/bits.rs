//! Bits packed into bytes, least significant bit first.
use vstd::prelude::*;

verus! {

/// Bit `r` (0 = least significant) of a byte.
pub open spec fn byte_bit(b: u8, r: int) -> bool {
    ((b >> (r as u8)) & 1u8) == 1u8
}

/// Bit `pos` of a byte string: bit pos % 8 of byte pos / 8.
pub open spec fn msg_bit(bytes: Seq<u8>, pos: int) -> bool {
    byte_bit(bytes[pos / 8], pos % 8)
}

/// `bytes` holds `bits` in order, padded with zero bits to whole bytes.
pub open spec fn packs(bytes: Seq<u8>, bits: Seq<bool>) -> bool {
    &&& bytes.len() == (bits.len() + 7) / 8
    &&& forall|t: int| 0 <= t < 8 * bytes.len() ==> #[trigger] msg_bit(bytes, t) == (t < bits.len() && bits[t])
}

/// Bit `bit_idx` of byte `byte_idx` of `buf`.
pub fn get_byte_bit(buf: &[u8], byte_idx: usize, bit_idx: usize) -> (r: bool)
    requires
        byte_idx < buf@.len(),
        bit_idx < 8,
    ensures
        r == byte_bit(buf@[byte_idx as int], bit_idx as int),
{
    let s = bit_idx as u8;
    (buf[byte_idx] >> s) & 1u8 == 1u8
}

proof fn lemma_byte_bit_set(b: u8, s: u8, r: u8)
    requires
        s < 8,
        r < 8,
    ensures
        byte_bit(b | (1u8 << s), r as int) == (byte_bit(b, r as int) || r == s),
{
    assert((((b | (1u8 << s)) >> r) & 1u8 == 1u8) == ((((b >> r) & 1u8) == 1u8) || r == s)) by (bit_vector)
        requires
            s < 8,
            r < 8,
    ;
}

proof fn lemma_zero_byte(r: u8)
    requires
        r < 8,
    ensures
        !byte_bit(0u8, r as int),
{
    assert(((0u8 >> r) & 1u8) == 0u8) by (bit_vector);
}

/// Packs bits into bytes: bit t goes to bit t % 8 of byte t / 8.
pub fn pack_bits(bits: &[bool]) -> (r: Vec<u8>)
    requires
        bits@.len() + 7 <= usize::MAX,
    ensures
        packs(r@, bits@),
{
    let n = bits.len();
    let nbytes = (n + 7) / 8;
    let mut r: Vec<u8> = Vec::with_capacity(nbytes);
    for q in 0..nbytes
        invariant
            r@.len() == q,
            forall|k: int| 0 <= k < q ==> #[trigger] r@[k] == 0u8,
    {
        r.push(0u8);
    }
    assert forall|t: int| 0 <= t < 8 * r@.len() implies #[trigger] msg_bit(r@, t) == (t < 0 && bits@[t]) by {
        lemma_zero_byte((t % 8) as u8);
    }
    for t in 0..n
        invariant
            n == bits@.len(),
            nbytes == (n + 7) / 8,
            r@.len() == nbytes,
            forall|u: int| 0 <= u < 8 * r@.len() ==> #[trigger] msg_bit(r@, u) == (u < t && bits@[u]),
    {
        if bits[t] {
            let q = t / 8;
            let s = (t % 8) as u8;
            let ghost old_r = r@;
            let v = r[q] | (1u8 << s);
            r.set(q, v);
            assert forall|u: int| 0 <= u < 8 * r@.len() implies #[trigger] msg_bit(r@, u) == (u < t + 1 && bits@[u]) by {
                if u / 8 == q as int {
                    lemma_byte_bit_set(old_r[q as int], s, (u % 8) as u8);
                    assert(msg_bit(old_r, u) == (u < t && bits@[u]));
                } else {
                    assert(r@[u / 8] == old_r[u / 8]);
                    assert(msg_bit(old_r, u) == (u < t && bits@[u]));
                }
            }
        }
    }
    r
}

/// The first `n` bits held in `bytes`.
pub fn unpack_bits(bytes: &[u8], n: usize) -> (r: Vec<bool>)
    requires
        n <= 8 * bytes@.len(),
    ensures
        r@.len() == n,
        forall|t: int| 0 <= t < n ==> #[trigger] r@[t] == msg_bit(bytes@, t),
{
    let mut r: Vec<bool> = Vec::with_capacity(n);
    for j in 0..n
        invariant
            n <= 8 * bytes@.len(),
            r@.len() == j,
            forall|t: int| 0 <= t < j ==> #[trigger] r@[t] == msg_bit(bytes@, t),
    {
        r.push(get_byte_bit(bytes, j / 8, j % 8));
    }
    r
}


/// Law (reading packed bits back): in bytes that pack `bits`, bit j lies in
/// byte j / 8, which exists, at position j % 8, so that `get_byte_bit` there
/// gives `bits[j]`.
pub proof fn lemma_packed_bit(bytes: Seq<u8>, bits: Seq<bool>, j: int)
    requires
        packs(bytes, bits),
        0 <= j < bits.len(),
    ensures
        0 <= j / 8 < bytes.len(),
        0 <= j % 8 < 8,
        byte_bit(bytes[j / 8], j % 8) == bits[j],
{
    assert(msg_bit(bytes, j) == (j < bits.len() && bits[j]));
}

/// Law (packing then unpacking): unpacking the first `bits.len()` bits of
/// bytes that pack `bits` gives `bits` back.
pub proof fn lemma_unpack_packed(bytes: Seq<u8>, bits: Seq<bool>)
    requires
        packs(bytes, bits),
    ensures
        bits.len() <= 8 * bytes.len(),
        Seq::new(bits.len(), |t: int| msg_bit(bytes, t)) == bits,
{
    assert forall|t: int| 0 <= t < bits.len() implies #[trigger] msg_bit(bytes, t) == bits[t] by {
        lemma_packed_bit(bytes, bits, t);
    }
    assert(Seq::new(bits.len(), |t: int| msg_bit(bytes, t)) =~= bits);
}

} // verus!
