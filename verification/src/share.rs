//! Ring elements of Z_{2^32}, Z_{2^64} and Z_{2^128}, and the SPDZ-2k share
//! configurations built from them.
use crate::rng::fill_random_bytes;
use vstd::arithmetic::power2::pow2;
use vstd::bits::{
    lemma_u128_shr_is_div, lemma_u32_shl_is_mul, lemma_u32_shr_is_div, lemma_u64_shl_is_mul,
    lemma_u64_shr_is_div,
};
use vstd::bytes::{
    lemma_auto_spec_u128_to_from_le_bytes, lemma_auto_spec_u32_to_from_le_bytes,
    lemma_auto_spec_u64_to_from_le_bytes, spec_u128_from_le_bytes, spec_u128_to_le_bytes,
    spec_u32_from_le_bytes, spec_u32_to_le_bytes, spec_u64_from_le_bytes, spec_u64_to_le_bytes,
    u128_from_le_bytes, u128_to_le_bytes, u32_from_le_bytes, u32_to_le_bytes, u64_from_le_bytes,
    u64_to_le_bytes,
};
use vstd::prelude::*;
use vstd::slice::slice_subrange;

verus! {

/// 2^32, 2^64 and 2^128 as mathematical integers.
pub open spec fn two_32() -> int {
    0x1_0000_0000
}

pub open spec fn two_64() -> int {
    0x1_0000_0000_0000_0000int
}

pub open spec fn two_128() -> int {
    0x1_0000_0000_0000_0000_0000_0000_0000_0000int
}

/// The size of the ring Z_{2^w} of a share element type.
pub open spec fn modulus<T: ShareElement>() -> int {
    pow2(T::width()) as int
}

/// Bit `i` of a nonnegative integer.
pub open spec fn bit_of(v: int, i: nat) -> bool {
    (v / (pow2(i) as int)) % 2 == 1
}

/// The ring values of a sequence of elements.
pub open spec fn values<T: ShareElement>(s: Seq<T>) -> Seq<int> {
    s.map_values(|x: T| x.value())
}

/// The little-endian encoding of a sequence of elements, one after another.
pub open spec fn seq_to_bytes<T: ShareElement>(s: Seq<T>) -> Seq<u8>
    decreases s.len(),
{
    if s.len() == 0 {
        Seq::<u8>::empty()
    } else {
        seq_to_bytes(s.drop_last()) + s.last().spec_to_bytes()
    }
}

/// The elements that consecutive `w / 8`-byte chunks of `b` encode.
pub open spec fn decoded<T: ShareElement>(b: Seq<u8>) -> Seq<T> {
    Seq::new(
        (b.len() as int / (T::width() as int / 8)) as nat,
        |i: int| T::spec_from_bytes(b.subrange(i * (T::width() / 8), (i + 1) * (T::width() / 8))),
    )
}

/// An element of the ring Z_{2^w} (w = 32, 64 or 128), with wrapping arithmetic.
pub trait ShareElement: Sized + Copy {
    /// The element as an integer in [0, 2^w).
    spec fn value(self) -> int;

    /// The bit width w.
    spec fn width() -> nat;

    /// Bitwise exclusive or.
    spec fn spec_xor(a: Self, b: Self) -> Self;

    /// The little-endian bytes of the element.
    spec fn spec_to_bytes(self) -> Seq<u8>;

    /// The element that `w / 8` little-endian bytes encode.
    spec fn spec_from_bytes(b: Seq<u8>) -> Self;

    proof fn lemma_value_bounds(x: Self)
        ensures
            0 <= x.value() < pow2(Self::width()),
            Self::width() == 32 || Self::width() == 64 || Self::width() == 128,
            Self::width() == 32 ==> pow2(Self::width()) == two_32(),
            Self::width() == 64 ==> pow2(Self::width()) == two_64(),
            Self::width() == 128 ==> pow2(Self::width()) == two_128(),
    ;

    proof fn lemma_value_injective(x: Self, y: Self)
        ensures
            x.value() == y.value() ==> x == y,
    ;

    proof fn lemma_bytes(x: Self, b: Seq<u8>)
        ensures
            x.spec_to_bytes().len() == Self::width() / 8,
            Self::spec_from_bytes(x.spec_to_bytes()) == x,
            b.len() == Self::width() / 8 ==> Self::spec_from_bytes(b).spec_to_bytes() == b,
    ;

    proof fn lemma_xor(a: Self, b: Self, c: Self)
        ensures
            Self::spec_xor(a, b) == Self::spec_xor(b, a),
            Self::spec_xor(Self::spec_xor(a, b), c) == Self::spec_xor(a, Self::spec_xor(b, c)),
            Self::spec_xor(a, a).value() == 0,
            b.value() == 0 ==> Self::spec_xor(a, b) == a,
            forall|i: nat|
                i < Self::width() ==> bit_of(#[trigger] Self::spec_xor(a, b).value(), i) == (
                bit_of(a.value(), i) != bit_of(b.value(), i)),
    ;

    fn zero() -> (r: Self)
        ensures
            r.value() == 0,
    ;

    fn one() -> (r: Self)
        ensures
            r.value() == 1,
    ;

    fn wrapping_add(self, rhs: Self) -> (r: Self)
        ensures
            r.value() == (self.value() + rhs.value()) % (pow2(Self::width()) as int),
    ;

    fn wrapping_sub(self, rhs: Self) -> (r: Self)
        ensures
            r.value() == (self.value() - rhs.value()) % (pow2(Self::width()) as int),
    ;

    fn wrapping_mul(self, rhs: Self) -> (r: Self)
        ensures
            r.value() == (self.value() * rhs.value()) % (pow2(Self::width()) as int),
    ;

    /// Logical shift right.
    fn shr(self, n: usize) -> (r: Self)
        requires
            n < Self::width(),
        ensures
            r.value() == self.value() / (pow2(n as nat) as int),
    ;

    /// Shift left, where no bit is shifted out.
    fn shl(self, n: usize) -> (r: Self)
        requires
            n < Self::width(),
            self.value() * pow2(n as nat) < pow2(Self::width()),
        ensures
            r.value() == self.value() * pow2(n as nat),
    ;

    fn bitxor(self, rhs: Self) -> (r: Self)
        ensures
            r == Self::spec_xor(self, rhs),
    ;

    fn get_bit(self, i: usize) -> (r: bool)
        requires
            i < Self::width(),
        ensures
            r == bit_of(self.value(), i as nat),
    ;

    fn to_u128(self) -> (r: u128)
        ensures
            r as int == self.value(),
    ;

    /// The low `w` bits of `v`.
    fn from_u128(v: u128) -> (r: Self)
        ensures
            r.value() == v as int % (pow2(Self::width()) as int),
    ;

    fn byte_size() -> (r: usize)
        ensures
            r as nat == Self::width() / 8,
    ;

    fn bit_count() -> (r: usize)
        ensures
            r as nat == Self::width(),
    ;

    fn to_le_bytes_vec(self) -> (r: Vec<u8>)
        ensures
            r@ == self.spec_to_bytes(),
    ;

    /// Decodes the first `w / 8` bytes of `bytes`.
    fn from_le_bytes(bytes: &[u8]) -> (r: Self)
        requires
            bytes@.len() >= Self::width() / 8,
        ensures
            r == Self::spec_from_bytes(bytes@.subrange(0, Self::width() as int / 8)),
    ;

    fn random() -> Self;
}

/// The element as a u128 (through `to_u128`) truncated to the target ring:
/// zero-extension when widening, keeping the low bits when narrowing.
pub fn widen<From: ShareElement, To: ShareElement>(val: From) -> (r: To)
    ensures
        r.value() == val.value() % modulus::<To>(),
{
    To::from_u128(val.to_u128())
}

/// Widening into a ring at least as wide keeps the value.
pub proof fn lemma_widen_keeps<From: ShareElement, To: ShareElement>(v: From)
    requires
        From::width() <= To::width(),
    ensures
        v.value() % modulus::<To>() == v.value(),
{
    From::lemma_value_bounds(v);
    To::lemma_value_bounds(To::spec_from_bytes(Seq::<u8>::empty()));
    assert(pow2(From::width()) <= pow2(To::width()));
    vstd::arithmetic::div_mod::lemma_small_mod(v.value() as nat, pow2(To::width()));
}

/// `widen` on every element; the values are kept when the target ring is at
/// least as wide.
pub fn widen_all<From: ShareElement, To: ShareElement>(x: &[From]) -> (r: Vec<To>)
    requires
        From::width() <= To::width(),
    ensures
        r@.len() == x@.len(),
        values(r@) == values(x@),
{
    let n = x.len();
    let mut r: Vec<To> = Vec::with_capacity(n);
    for i in 0..n
        invariant
            n == x@.len(),
            From::width() <= To::width(),
            r@.len() == i,
            forall|j: int| 0 <= j < i ==> #[trigger] r@[j].value() == x@[j].value(),
    {
        let v = widen::<From, To>(x[i]);
        proof {
            lemma_widen_keeps::<From, To>(x@[i as int]);
        }
        r.push(v);
    }
    assert(values(r@) =~= values(x@));
    r
}

/// A copy of the elements.
pub fn copy_elems<T: ShareElement>(x: &[T]) -> (r: Vec<T>)
    ensures
        r@ == x@,
{
    let n = x.len();
    let mut r: Vec<T> = Vec::with_capacity(n);
    for i in 0..n
        invariant
            n == x@.len(),
            r@ == x@.subrange(0, i as int),
    {
        r.push(x[i]);
    }
    assert(r@ =~= x@);
    r
}

/// The encodings of the elements, one after another.
pub fn slice_as_bytes<T: ShareElement>(slice: &[T]) -> (r: Vec<u8>)
    ensures
        r@ == seq_to_bytes(slice@),
{
    let n = slice.len();
    let mut r: Vec<u8> = Vec::new();
    for i in 0..n
        invariant
            n == slice@.len(),
            r@ == seq_to_bytes(slice@.subrange(0, i as int)),
    {
        let mut b = slice[i].to_le_bytes_vec();
        r.append(&mut b);
        proof {
            let s = slice@.subrange(0, i as int + 1);
            assert(s.drop_last() =~= slice@.subrange(0, i as int));
            assert(s.last() == slice@[i as int]);
        }
    }
    assert(slice@.subrange(0, n as int) =~= slice@);
    r
}

/// The encoding of a sequence is as long as its elements' encodings together.
pub proof fn lemma_seq_to_bytes_len<T: ShareElement>(s: Seq<T>)
    ensures
        seq_to_bytes(s).len() == s.len() * (T::width() / 8),
    decreases s.len(),
{
    if s.len() > 0 {
        lemma_seq_to_bytes_len(s.drop_last());
        T::lemma_bytes(s.last(), Seq::<u8>::empty());
        assert(s.len() * (T::width() / 8) == (s.len() - 1) * (T::width() / 8) + T::width() / 8) by (nonlinear_arith);
    }
}

/// Element i of a sequence is encoded at bytes [i w/8, (i+1) w/8).
pub proof fn lemma_seq_to_bytes_index<T: ShareElement>(s: Seq<T>, i: int)
    requires
        0 <= i < s.len(),
    ensures
        seq_to_bytes(s).subrange(i * (T::width() / 8), (i + 1) * (T::width() / 8)) == s[i].spec_to_bytes(),
    decreases s.len(),
{
    let w = (T::width() / 8) as int;
    lemma_seq_to_bytes_len(s.drop_last());
    T::lemma_bytes(s.last(), Seq::<u8>::empty());
    let pre = seq_to_bytes(s.drop_last());
    assert(seq_to_bytes(s) == pre + s.last().spec_to_bytes());
    assert((s.len() - 1) * w + w == s.len() * w) by (nonlinear_arith);
    if i == s.len() - 1 {
        assert(seq_to_bytes(s).subrange(i * w, (i + 1) * w) =~= s[i].spec_to_bytes());
    } else {
        lemma_seq_to_bytes_index(s.drop_last(), i);
        assert((i + 1) * w <= (s.len() - 1) * w) by (nonlinear_arith)
            requires
                i + 1 <= s.len() - 1,
                w >= 0,
        ;
        assert(0 <= i * w) by (nonlinear_arith)
            requires
                0 <= i,
                w >= 0,
        ;
        assert(pre.len() == (s.len() - 1) * w);
        assert(i * w <= (i + 1) * w) by (nonlinear_arith)
            requires
                w >= 0,
        ;
        assert(seq_to_bytes(s).subrange(i * w, (i + 1) * w) =~= pre.subrange(i * w, (i + 1) * w));
    }
}

/// Decodes consecutive `w / 8`-byte chunks (`bytes` must hold whole chunks).
pub fn vec_from_bytes<T: ShareElement>(bytes: &[u8]) -> (r: Vec<T>)
    requires
        bytes@.len() as int % (T::width() as int / 8) == 0,
    ensures
        r@.len() == bytes@.len() as int / (T::width() as int / 8),
        forall|i: int| 0 <= i < r@.len() ==> #[trigger] r@[i] == T::spec_from_bytes(bytes@.subrange(i * (T::width() / 8), (i + 1) * (T::width() / 8))),
        r@ == decoded::<T>(bytes@),
{
    let size = T::byte_size();
    let z = T::zero();
    proof {
        T::lemma_value_bounds(z);
    }
    let blen = bytes.len();
    let count = blen / size;
    let mut r: Vec<T> = Vec::with_capacity(count);
    for i in 0..count
        invariant
            blen == bytes@.len(),
            size as nat == T::width() / 8,
            size >= 4,
            count == bytes@.len() as int / (size as int),
            bytes@.len() as int % (size as int) == 0,
            r@.len() == i,
            forall|j: int| 0 <= j < i ==> #[trigger] r@[j] == T::spec_from_bytes(bytes@.subrange(j * (T::width() / 8), (j + 1) * (T::width() / 8))),
    {
        assert((i + 1) * size <= count * size) by (nonlinear_arith)
            requires
                i < count,
        ;
        assert(count * size == bytes@.len()) by (nonlinear_arith)
            requires
                count == bytes@.len() as int / (size as int),
                bytes@.len() as int % (size as int) == 0,
                size > 0,
        ;
        assert(i * size + size == (i + 1) * size) by (nonlinear_arith);
        assert(i * size <= (i + 1) * size) by (nonlinear_arith);
        assert(i * (T::width() / 8) == i * size);
        let chunk = slice_subrange(bytes, i * size, i * size + size);
        let v = T::from_le_bytes(chunk);
        proof {
            assert(chunk@.subrange(0, T::width() as int / 8) =~= bytes@.subrange(i * (T::width() / 8), (i + 1) * (T::width() / 8)));
        }
        r.push(v);
    }
    assert(r@ =~= decoded::<T>(bytes@));
    r
}

/// Law: decoding the encoding of a sequence of elements gives it back.
pub proof fn lemma_bytes_roundtrip<T: ShareElement>(s: Seq<T>, r: Seq<T>)
    requires
        r.len() == seq_to_bytes(s).len() as int / (T::width() as int / 8),
        forall|i: int| 0 <= i < r.len() ==> #[trigger] r[i] == T::spec_from_bytes(seq_to_bytes(s).subrange(i * (T::width() / 8), (i + 1) * (T::width() / 8))),
    ensures
        r == s,
{
    lemma_seq_to_bytes_len(s);
    T::lemma_value_bounds(s.last());
    let w = (T::width() / 8) as int;
    assert(w > 0);
    assert(s.len() * w / w == s.len()) by (nonlinear_arith)
        requires
            w > 0,
    ;
    assert forall|i: int| 0 <= i < s.len() implies r[i] == s[i] by {
        lemma_seq_to_bytes_index(s, i);
        T::lemma_bytes(s[i], Seq::<u8>::empty());
    }
    assert(r =~= s);
}

/// Law: decoding the encoding of a sequence gives it back.
pub proof fn lemma_decoded_roundtrip<T: ShareElement>(s: Seq<T>)
    ensures
        decoded::<T>(seq_to_bytes(s)) == s,
        seq_to_bytes(s).len() == s.len() * (T::width() / 8),
{
    lemma_seq_to_bytes_len(s);
    let r = decoded::<T>(seq_to_bytes(s));
    T::lemma_value_bounds(T::spec_from_bytes(Seq::<u8>::empty()));
    if s.len() > 0 {
        let w = (T::width() / 8) as int;
        assert(s.len() * w / w == s.len()) by (nonlinear_arith)
            requires
                w > 0,
        ;
        lemma_bytes_roundtrip(s, r);
    } else {
        assert(r =~= s);
    }
}

/// Refills `v` with random elements, decoded from random bytes.
pub fn fill_random<T: ShareElement>(v: &mut Vec<T>)
    ensures
        final(v)@.len() == old(v)@.len(),
{
    let n = v.len();
    let size = T::byte_size();
    let z = T::zero();
    proof {
        T::lemma_value_bounds(z);
    }
    let mut buf: Vec<u8> = Vec::new();
    for i in 0..size
        invariant
            buf@.len() == i,
    {
        buf.push(0u8);
    }
    for i in 0..n
        invariant
            n == v@.len(),
            size as nat == T::width() / 8,
            buf@.len() == size,
    {
        fill_random_bytes(&mut buf);
        let x = T::from_le_bytes(buf.as_slice());
        v.set(i, x);
    }
}

proof fn lemma_u32_xor_bits(a: u32, b: u32, i: nat)
    requires
        i < 32,
    ensures
        bit_of((a ^ b) as int, i) == (bit_of(a as int, i) != bit_of(b as int, i)),
{
    let s = i as u32;
    lemma_u32_shr_is_div(a ^ b, s);
    lemma_u32_shr_is_div(a, s);
    lemma_u32_shr_is_div(b, s);
    assert(((a ^ b) >> s) & 1 == ((a >> s) & 1) ^ ((b >> s) & 1)) by (bit_vector);
    assert(forall|x: u32| #![auto] x & 1 == x % 2) by (bit_vector);
    assert(forall|x: u32, y: u32| #![auto] (x & 1) ^ (y & 1) == 1 <==> ((x & 1 == 1) != (y & 1 == 1))) by (bit_vector);
}

proof fn lemma_u64_xor_bits(a: u64, b: u64, i: nat)
    requires
        i < 64,
    ensures
        bit_of((a ^ b) as int, i) == (bit_of(a as int, i) != bit_of(b as int, i)),
{
    let s = i as u64;
    lemma_u64_shr_is_div(a ^ b, s);
    lemma_u64_shr_is_div(a, s);
    lemma_u64_shr_is_div(b, s);
    assert(((a ^ b) >> s) & 1 == ((a >> s) & 1) ^ ((b >> s) & 1)) by (bit_vector);
    assert(forall|x: u64| #![auto] x & 1 == x % 2) by (bit_vector);
    assert(forall|x: u64, y: u64| #![auto] (x & 1) ^ (y & 1) == 1 <==> ((x & 1 == 1) != (y & 1 == 1))) by (bit_vector);
}

proof fn lemma_u128_xor_bits(a: u128, b: u128, i: nat)
    requires
        i < 128,
    ensures
        bit_of((a ^ b) as int, i) == (bit_of(a as int, i) != bit_of(b as int, i)),
{
    let s = i as u128;
    lemma_u128_shr_is_div(a ^ b, s);
    lemma_u128_shr_is_div(a, s);
    lemma_u128_shr_is_div(b, s);
    assert(((a ^ b) >> s) & 1 == ((a >> s) & 1) ^ ((b >> s) & 1)) by (bit_vector);
    assert(forall|x: u128| #![auto] x & 1 == x % 2) by (bit_vector);
    assert(forall|x: u128, y: u128| #![auto] (x & 1) ^ (y & 1) == 1 <==> ((x & 1 == 1) != (y & 1 == 1))) by (bit_vector);
}

/// Shifting left by one more place doubles the value, when nothing is shifted out.
proof fn lemma_u128_shl_is_mul(x: u128, n: u128)
    requires
        n < 128,
        x * pow2(n as nat) <= u128::MAX,
    ensures
        x << n == x * pow2(n as nat),
    decreases n,
{
    if n == 0 {
        assert(x << 0 == x) by (bit_vector);
        vstd::arithmetic::power2::lemma2_to64();
    } else {
        vstd::arithmetic::power2::lemma_pow2_unfold(n as nat);
        vstd::arithmetic::power2::lemma_pow2_pos((n - 1) as nat);
        let m = (n - 1) as u128;
        let p = pow2(m as nat);
        assert(x * (2 * p) == 2 * (x * p)) by (nonlinear_arith);
        lemma_u128_shl_is_mul(x, m);
        let y = x << m;
        assert(y < 0x8000_0000_0000_0000_0000_0000_0000_0000);
        assert(y < 0x8000_0000_0000_0000_0000_0000_0000_0000 ==> y << 1 == y + y) by (bit_vector);
        assert(m < 127 ==> (x << m) << 1 == x << (m + 1)) by (bit_vector);
    }
}

impl ShareElement for u32 {
    open spec fn value(self) -> int {
        self as int
    }

    open spec fn width() -> nat {
        32
    }

    open spec fn spec_xor(a: u32, b: u32) -> u32 {
        a ^ b
    }

    open spec fn spec_to_bytes(self) -> Seq<u8> {
        spec_u32_to_le_bytes(self)
    }

    open spec fn spec_from_bytes(b: Seq<u8>) -> u32 {
        spec_u32_from_le_bytes(b)
    }

    proof fn lemma_value_bounds(x: u32) {
        vstd::arithmetic::power2::lemma2_to64();
    }

    proof fn lemma_value_injective(x: u32, y: u32) {
    }

    proof fn lemma_bytes(x: u32, b: Seq<u8>) {
        lemma_auto_spec_u32_to_from_le_bytes();
    }

    proof fn lemma_xor(a: u32, b: u32, c: u32) {
        assert(a ^ b == b ^ a) by (bit_vector);
        assert((a ^ b) ^ c == a ^ (b ^ c)) by (bit_vector);
        assert(a ^ a == 0) by (bit_vector);
        assert(b == 0 ==> a ^ b == a) by (bit_vector);
        assert forall|i: nat| i < 32 implies bit_of(#[trigger] (a ^ b) as int, i) == (bit_of(
            a as int,
            i,
        ) != bit_of(b as int, i)) by {
            lemma_u32_xor_bits(a, b, i);
        }
    }

    fn zero() -> u32 {
        0
    }

    fn one() -> u32 {
        1
    }

    fn wrapping_add(self, rhs: u32) -> u32 {
        let r = u32::wrapping_add(self, rhs);
        proof {
            let a = self as int;
            let b = rhs as int;
            if a + b < 0 || a + b >= 0x1_0000_0000int {
                assert((a + b) % 0x1_0000_0000int == r as int) by {
                    vstd::arithmetic::div_mod::lemma_mod_add_multiples_vanish(r as int, 0x1_0000_0000int);
                    vstd::arithmetic::div_mod::lemma_mod_sub_multiples_vanish(r as int, 0x1_0000_0000int);
                }
            }
            vstd::arithmetic::power2::lemma2_to64();
        }
        r
    }

    fn wrapping_sub(self, rhs: u32) -> u32 {
        let r = u32::wrapping_sub(self, rhs);
        proof {
            let a = self as int;
            let b = rhs as int;
            if a - b < 0 || a - b >= 0x1_0000_0000int {
                assert((a - b) % 0x1_0000_0000int == r as int) by {
                    vstd::arithmetic::div_mod::lemma_mod_add_multiples_vanish(r as int, 0x1_0000_0000int);
                    vstd::arithmetic::div_mod::lemma_mod_sub_multiples_vanish(r as int, 0x1_0000_0000int);
                }
            }
            vstd::arithmetic::power2::lemma2_to64();
        }
        r
    }

    fn wrapping_mul(self, rhs: u32) -> u32 {
        proof {
            vstd::arithmetic::power2::lemma2_to64();
        }
        self.wrapping_mul(rhs)
    }

    fn shr(self, n: usize) -> u32 {
        let s = n as u32;
        proof {
            lemma_u32_shr_is_div(self, s);
        }
        self >> s
    }

    fn shl(self, n: usize) -> u32 {
        let s = n as u32;
        proof {
            vstd::arithmetic::power2::lemma2_to64();
            lemma_u32_shl_is_mul(self, s);
        }
        self << s
    }

    fn bitxor(self, rhs: u32) -> u32 {
        self ^ rhs
    }

    fn get_bit(self, i: usize) -> bool {
        let s = i as u32;
        proof {
            lemma_u32_shr_is_div(self, s);
            let y = self >> s;
            assert(y & 1 == y % 2) by (bit_vector);
        }
        (self >> s) & 1 == 1
    }

    fn to_u128(self) -> u128 {
        self as u128
    }

    fn from_u128(v: u128) -> u32 {
        proof {
            vstd::arithmetic::power2::lemma2_to64();
            assert(v & 0xffff_ffff == v % 0x1_0000_0000) by (bit_vector);
        }
        (v & 0xffff_ffff) as u32
    }

    fn byte_size() -> usize {
        4
    }

    fn bit_count() -> usize {
        32
    }

    fn to_le_bytes_vec(self) -> Vec<u8> {
        u32_to_le_bytes(self)
    }

    fn from_le_bytes(bytes: &[u8]) -> u32 {
        u32_from_le_bytes(slice_subrange(bytes, 0, 4))
    }

    fn random() -> u32 {
        let mut buf: Vec<u8> = vec![0u8; 4];
        fill_random_bytes(&mut buf);
        u32_from_le_bytes(buf.as_slice())
    }
}

impl ShareElement for u64 {
    open spec fn value(self) -> int {
        self as int
    }

    open spec fn width() -> nat {
        64
    }

    open spec fn spec_xor(a: u64, b: u64) -> u64 {
        a ^ b
    }

    open spec fn spec_to_bytes(self) -> Seq<u8> {
        spec_u64_to_le_bytes(self)
    }

    open spec fn spec_from_bytes(b: Seq<u8>) -> u64 {
        spec_u64_from_le_bytes(b)
    }

    proof fn lemma_value_bounds(x: u64) {
        vstd::arithmetic::power2::lemma2_to64();
    }

    proof fn lemma_value_injective(x: u64, y: u64) {
    }

    proof fn lemma_bytes(x: u64, b: Seq<u8>) {
        lemma_auto_spec_u64_to_from_le_bytes();
    }

    proof fn lemma_xor(a: u64, b: u64, c: u64) {
        assert(a ^ b == b ^ a) by (bit_vector);
        assert((a ^ b) ^ c == a ^ (b ^ c)) by (bit_vector);
        assert(a ^ a == 0) by (bit_vector);
        assert(b == 0 ==> a ^ b == a) by (bit_vector);
        assert forall|i: nat| i < 64 implies bit_of(#[trigger] (a ^ b) as int, i) == (bit_of(
            a as int,
            i,
        ) != bit_of(b as int, i)) by {
            lemma_u64_xor_bits(a, b, i);
        }
    }

    fn zero() -> u64 {
        0
    }

    fn one() -> u64 {
        1
    }

    fn wrapping_add(self, rhs: u64) -> u64 {
        let r = u64::wrapping_add(self, rhs);
        proof {
            let a = self as int;
            let b = rhs as int;
            if a + b < 0 || a + b >= 0x1_0000_0000_0000_0000int {
                assert((a + b) % 0x1_0000_0000_0000_0000int == r as int) by {
                    vstd::arithmetic::div_mod::lemma_mod_add_multiples_vanish(r as int, 0x1_0000_0000_0000_0000int);
                    vstd::arithmetic::div_mod::lemma_mod_sub_multiples_vanish(r as int, 0x1_0000_0000_0000_0000int);
                }
            }
            vstd::arithmetic::power2::lemma2_to64();
        }
        r
    }

    fn wrapping_sub(self, rhs: u64) -> u64 {
        let r = u64::wrapping_sub(self, rhs);
        proof {
            let a = self as int;
            let b = rhs as int;
            if a - b < 0 || a - b >= 0x1_0000_0000_0000_0000int {
                assert((a - b) % 0x1_0000_0000_0000_0000int == r as int) by {
                    vstd::arithmetic::div_mod::lemma_mod_add_multiples_vanish(r as int, 0x1_0000_0000_0000_0000int);
                    vstd::arithmetic::div_mod::lemma_mod_sub_multiples_vanish(r as int, 0x1_0000_0000_0000_0000int);
                }
            }
            vstd::arithmetic::power2::lemma2_to64();
        }
        r
    }

    fn wrapping_mul(self, rhs: u64) -> u64 {
        proof {
            vstd::arithmetic::power2::lemma2_to64();
        }
        self.wrapping_mul(rhs)
    }

    fn shr(self, n: usize) -> u64 {
        let s = n as u64;
        proof {
            lemma_u64_shr_is_div(self, s);
        }
        self >> s
    }

    fn shl(self, n: usize) -> u64 {
        let s = n as u64;
        proof {
            vstd::arithmetic::power2::lemma2_to64();
            lemma_u64_shl_is_mul(self, s);
        }
        self << s
    }

    fn bitxor(self, rhs: u64) -> u64 {
        self ^ rhs
    }

    fn get_bit(self, i: usize) -> bool {
        let s = i as u64;
        proof {
            lemma_u64_shr_is_div(self, s);
            let y = self >> s;
            assert(y & 1 == y % 2) by (bit_vector);
        }
        (self >> s) & 1 == 1
    }

    fn to_u128(self) -> u128 {
        self as u128
    }

    fn from_u128(v: u128) -> u64 {
        proof {
            vstd::arithmetic::power2::lemma2_to64();
            assert(v & 0xffff_ffff_ffff_ffff == v % 0x1_0000_0000_0000_0000) by (bit_vector);
        }
        (v & 0xffff_ffff_ffff_ffff) as u64
    }

    fn byte_size() -> usize {
        8
    }

    fn bit_count() -> usize {
        64
    }

    fn to_le_bytes_vec(self) -> Vec<u8> {
        u64_to_le_bytes(self)
    }

    fn from_le_bytes(bytes: &[u8]) -> u64 {
        u64_from_le_bytes(slice_subrange(bytes, 0, 8))
    }

    fn random() -> u64 {
        let mut buf: Vec<u8> = vec![0u8; 8];
        fill_random_bytes(&mut buf);
        u64_from_le_bytes(buf.as_slice())
    }
}

proof fn lemma_pow2_128()
    ensures
        pow2(128) == two_128(),
{
    vstd::arithmetic::power2::lemma2_to64();
    vstd::arithmetic::power2::lemma_pow2_adds(64, 64);
}

impl ShareElement for u128 {
    open spec fn value(self) -> int {
        self as int
    }

    open spec fn width() -> nat {
        128
    }

    open spec fn spec_xor(a: u128, b: u128) -> u128 {
        a ^ b
    }

    open spec fn spec_to_bytes(self) -> Seq<u8> {
        spec_u128_to_le_bytes(self)
    }

    open spec fn spec_from_bytes(b: Seq<u8>) -> u128 {
        spec_u128_from_le_bytes(b)
    }

    proof fn lemma_value_bounds(x: u128) {
        lemma_pow2_128();
    }

    proof fn lemma_value_injective(x: u128, y: u128) {
    }

    proof fn lemma_bytes(x: u128, b: Seq<u8>) {
        lemma_auto_spec_u128_to_from_le_bytes();
    }

    proof fn lemma_xor(a: u128, b: u128, c: u128) {
        assert(a ^ b == b ^ a) by (bit_vector);
        assert((a ^ b) ^ c == a ^ (b ^ c)) by (bit_vector);
        assert(a ^ a == 0) by (bit_vector);
        assert(b == 0 ==> a ^ b == a) by (bit_vector);
        assert forall|i: nat| i < 128 implies bit_of(#[trigger] (a ^ b) as int, i) == (bit_of(
            a as int,
            i,
        ) != bit_of(b as int, i)) by {
            lemma_u128_xor_bits(a, b, i);
        }
    }

    fn zero() -> u128 {
        0
    }

    fn one() -> u128 {
        1
    }

    fn wrapping_add(self, rhs: u128) -> u128 {
        let r = u128::wrapping_add(self, rhs);
        proof {
            let a = self as int;
            let b = rhs as int;
            if a + b < 0 || a + b >= 0x1_0000_0000_0000_0000_0000_0000_0000_0000int {
                assert((a + b) % 0x1_0000_0000_0000_0000_0000_0000_0000_0000int == r as int) by {
                    vstd::arithmetic::div_mod::lemma_mod_add_multiples_vanish(r as int, 0x1_0000_0000_0000_0000_0000_0000_0000_0000int);
                    vstd::arithmetic::div_mod::lemma_mod_sub_multiples_vanish(r as int, 0x1_0000_0000_0000_0000_0000_0000_0000_0000int);
                }
            }
            lemma_pow2_128();
        }
        r
    }

    fn wrapping_sub(self, rhs: u128) -> u128 {
        let r = u128::wrapping_sub(self, rhs);
        proof {
            let a = self as int;
            let b = rhs as int;
            if a - b < 0 || a - b >= 0x1_0000_0000_0000_0000_0000_0000_0000_0000int {
                assert((a - b) % 0x1_0000_0000_0000_0000_0000_0000_0000_0000int == r as int) by {
                    vstd::arithmetic::div_mod::lemma_mod_add_multiples_vanish(r as int, 0x1_0000_0000_0000_0000_0000_0000_0000_0000int);
                    vstd::arithmetic::div_mod::lemma_mod_sub_multiples_vanish(r as int, 0x1_0000_0000_0000_0000_0000_0000_0000_0000int);
                }
            }
            lemma_pow2_128();
        }
        r
    }

    fn wrapping_mul(self, rhs: u128) -> u128 {
        proof {
            lemma_pow2_128();
        }
        self.wrapping_mul(rhs)
    }

    fn shr(self, n: usize) -> u128 {
        let s = n as u128;
        proof {
            lemma_u128_shr_is_div(self, s);
        }
        self >> s
    }

    fn shl(self, n: usize) -> u128 {
        let s = n as u128;
        proof {
            lemma_pow2_128();
            lemma_u128_shl_is_mul(self, s);
        }
        self << s
    }

    fn bitxor(self, rhs: u128) -> u128 {
        self ^ rhs
    }

    fn get_bit(self, i: usize) -> bool {
        let s = i as u128;
        proof {
            lemma_u128_shr_is_div(self, s);
            let y = self >> s;
            assert(y & 1 == y % 2) by (bit_vector);
        }
        (self >> s) & 1 == 1
    }

    fn to_u128(self) -> u128 {
        self
    }

    fn from_u128(v: u128) -> u128 {
        proof {
            lemma_pow2_128();
            vstd::arithmetic::div_mod::lemma_small_mod(v as nat, two_128() as nat);
        }
        v
    }

    fn byte_size() -> usize {
        16
    }

    fn bit_count() -> usize {
        128
    }

    fn to_le_bytes_vec(self) -> Vec<u8> {
        u128_to_le_bytes(self)
    }

    fn from_le_bytes(bytes: &[u8]) -> u128 {
        u128_from_le_bytes(slice_subrange(bytes, 0, 16))
    }

    fn random() -> u128 {
        let mut buf: Vec<u8> = vec![0u8; 16];
        fill_random_bytes(&mut buf);
        u128_from_le_bytes(buf.as_slice())
    }
}


/// A SPDZ-2k configuration: clear values live in Z_{2^K}, MAC key shares in
/// Z_{2^S}, and value and MAC shares in Z_{2^{K+S}}.
pub trait Spdz2kShare {
    /// The number of bits of the value ring Z_{2^K}.
    const K_BITS: usize;

    /// The number of bits of the MAC key ring Z_{2^S}.
    const S_BITS: usize;

    /// Value type over Z_{2^K}.
    type KType: ShareElement;

    /// MAC key share type over Z_{2^S}.
    type SType: ShareElement;

    /// Combined type over Z_{2^{K+S}}.
    type KSType: ShareElement;

    /// Clear values (Z_{2^K}).
    type ClearType: ShareElement;

    /// Shares of values and of MACs (Z_{2^{K+S}}).
    type SemiShrType: ShareElement;

    /// The share of the MAC key that a party holds (Z_{2^S}).
    type KeyShrType: ShareElement;

    /// The MAC key (Z_{2^{K+S}}).
    type GlobalKeyType: ShareElement;

    proof fn lemma_widths()
        ensures
            Self::ClearType::width() == Self::K_BITS,
            Self::KType::width() == Self::K_BITS,
            Self::KeyShrType::width() == Self::S_BITS,
            Self::SType::width() == Self::S_BITS,
            Self::SemiShrType::width() == Self::K_BITS + Self::S_BITS,
            Self::KSType::width() == Self::K_BITS + Self::S_BITS,
            Self::GlobalKeyType::width() == Self::K_BITS + Self::S_BITS,
            0 < Self::K_BITS,
            0 < Self::S_BITS,
    ;

    /// Keeps the low K bits: Z_{2^{K+S}} -> Z_{2^K} (still held in the wide type).
    fn remove_upper_bits(value: Self::SemiShrType) -> (r: Self::SemiShrType)
        ensures
            r.value() == value.value() % (pow2(Self::K_BITS as nat) as int),
    ;

    /// `remove_upper_bits` on every element.
    fn remove_upper_bits_inplace(values: &mut Vec<Self::SemiShrType>)
        ensures
            final(values)@.len() == old(values)@.len(),
            forall|i: int|
                0 <= i < final(values)@.len() ==> #[trigger] final(values)@[i].value() == old(
                    values,
                )@[i].value() % (pow2(Self::K_BITS as nat) as int),
    {
        let n = values.len();
        for i in 0..n
            invariant
                n == values@.len(),
                n == old(values)@.len(),
                forall|j: int|
                    0 <= j < i ==> #[trigger] values@[j].value() == old(values)@[j].value() % (pow2(
                        Self::K_BITS as nat,
                    ) as int),
                forall|j: int| i <= j < n ==> #[trigger] values@[j] == old(values)@[j],
        {
            let v = Self::remove_upper_bits(values[i]);
            values.set(i, v);
        }
    }
}

/// SPDZ-2k with K = S = 32: values in u32, shares in u64.
pub struct Spdz2kShare32;

impl Spdz2kShare for Spdz2kShare32 {
    const K_BITS: usize = 32;

    const S_BITS: usize = 32;

    type KType = u32;

    type SType = u32;

    type KSType = u64;

    type ClearType = u32;

    type SemiShrType = u64;

    type KeyShrType = u32;

    type GlobalKeyType = u64;

    proof fn lemma_widths() {
    }

    fn remove_upper_bits(value: u64) -> u64 {
        proof {
            vstd::arithmetic::power2::lemma2_to64();
            assert((value << 32u64) >> 32u64 == value % 0x1_0000_0000) by (bit_vector);
            assert(pow2(Self::K_BITS as nat) == 0x1_0000_0000);
        }
        let r = (value << 32u64) >> 32u64;
        assert(r == value % 0x1_0000_0000);
        assert(r.value() == value.value() % 0x1_0000_0000);
        r
    }
}

/// SPDZ-2k with K = S = 64: values in u64, shares in u128.
pub struct Spdz2kShare64;

impl Spdz2kShare for Spdz2kShare64 {
    const K_BITS: usize = 64;

    const S_BITS: usize = 64;

    type KType = u64;

    type SType = u64;

    type KSType = u128;

    type ClearType = u64;

    type SemiShrType = u128;

    type KeyShrType = u64;

    type GlobalKeyType = u128;

    proof fn lemma_widths() {
    }

    fn remove_upper_bits(value: u128) -> u128 {
        proof {
            vstd::arithmetic::power2::lemma2_to64();
            assert((value << 64u128) >> 64u128 == value % 0x1_0000_0000_0000_0000) by (bit_vector);
            assert(pow2(Self::K_BITS as nat) == 0x1_0000_0000_0000_0000);
        }
        let r = (value << 64u128) >> 64u128;
        assert(r == value % 0x1_0000_0000_0000_0000);
        assert(r.value() == value.value() % 0x1_0000_0000_0000_0000);
        r
    }
}

} // verus!
