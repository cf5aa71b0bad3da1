//! The row and packer abstractions, and the value a column of booleans packs into.

use vstd::arithmetic::div_mod::lemma_div_denominator;
use vstd::arithmetic::power2::{
    lemma2_to64, lemma2_to64_rest, lemma_pow2_adds, lemma_pow2_pos, lemma_pow2_strictly_increases,
    lemma_pow2_unfold, pow2,
};
use vstd::prelude::*;

verus! {

/// The number a column of booleans packs into: the first boolean is the most
/// significant bit, the last one the least significant.
pub open spec fn packed_value(bits: Seq<bool>) -> nat
    decreases bits.len(),
{
    if bits.len() == 0 {
        0
    } else {
        2 * packed_value(bits.drop_last()) + (if bits.last() { 1nat } else { 0nat })
    }
}

/// Every packed value of `n` booleans fits in `n` bits.
pub proof fn lemma_packed_value_bound(bits: Seq<bool>)
    ensures
        packed_value(bits) < pow2(bits.len()),
    decreases bits.len(),
{
    if bits.len() > 0 {
        lemma_packed_value_bound(bits.drop_last());
        lemma_pow2_unfold(bits.len());
    } else {
        lemma2_to64();
    }
}

/// The top bit of a `u128`.
proof fn lemma_pow2_127()
    ensures
        pow2(127) == 0x8000_0000_0000_0000_0000_0000_0000_0000,
{
    lemma2_to64();
    lemma2_to64_rest();
    lemma_pow2_adds(63, 64);
    let a = pow2(63);
    let b = pow2(64);
    assert(a * b == 0x8000_0000_0000_0000_0000_0000_0000_0000) by (nonlinear_arith)
        requires
            a == 0x8000_0000_0000_0000,
            b == 0x1_0000_0000_0000_0000,
    ;
}

/// Bit `i` of `w`, counted from the least significant bit.
pub open spec fn bit_of(w: nat, i: nat) -> bool {
    (w / pow2(i)) % 2 == 1
}

/// Bit `n - 1 - h` of the value that `n` booleans pack into is boolean `h`.
pub proof fn lemma_packed_bit(bits: Seq<bool>, h: int)
    requires
        0 <= h < bits.len(),
    ensures
        bit_of(packed_value(bits), (bits.len() - 1 - h) as nat) == bits[h],
    decreases bits.len(),
{
    let n = bits.len();
    let rest = bits.drop_last();
    let p = packed_value(rest);
    let b: nat = if bits.last() { 1 } else { 0 };
    let v = packed_value(bits);
    assert(v == 2 * p + b);
    if h == n - 1 {
        lemma2_to64();
        assert(v / 1 == v);
    } else {
        let i = (n - 1 - h) as nat;
        lemma_packed_bit(rest, h);
        lemma_pow2_unfold(i);
        let q = pow2((i - 1) as nat);
        lemma_pow2_pos((i - 1) as nat);
        lemma_div_denominator(v as int, 2, q as int);
        assert(v / 2 == p);
        assert(pow2(i) == 2 * q);
    }
}

/// Packs up to 128 booleans into a `u128`, first boolean most significant.
fn pack_bits(bits: &Vec<bool>) -> (r: u128)
    requires
        bits@.len() <= 128,
    ensures
        r as nat == packed_value(bits@),
{
    let mut acc: u128 = 0;
    let mut i: usize = 0;
    while i < bits.len()
        invariant
            i <= bits@.len() <= 128,
            acc as nat == packed_value(bits@.take(i as int)),
        decreases bits@.len() - i,
    {
        proof {
            let prefix = bits@.take(i as int + 1);
            assert(prefix.drop_last() == bits@.take(i as int));
            lemma_packed_value_bound(bits@.take(i as int));
            if i < 127 {
                lemma_pow2_strictly_increases(i as nat, 127);
            }
            lemma_pow2_127();
        }
        acc = 2 * acc + if bits[i] { 1u128 } else { 0u128 };
        i += 1;
    }
    assert(bits@.take(bits@.len() as int) == bits@);
    acc
}

/// A single row of a card: a finite, ordered sequence of booleans.
pub trait PunchCardLine {
    /// The booleans of the row, in order.
    spec fn line(&self) -> Seq<bool>;

    /// Number of booleans in the row.
    fn length(&self) -> (n: usize)
        ensures
            n as nat == self.line().len(),
    ;

    /// The boolean at `column`.
    fn at(&self, column: usize) -> (b: bool)
        requires
            column < self.line().len(),
        ensures
            b == self.line()[column as int],
    ;
}

/// A card height together with the word that one column of such a card
/// packs into.
pub trait PunchCardInner: Sized + Copy {
    /// Number of rows in a card whose columns pack into this word.
    spec fn spec_height() -> nat;

    /// The number this word stands for.
    spec fn word(&self) -> nat;

    /// Number of rows in a card whose columns pack into this word.
    fn height() -> (h: usize)
        ensures
            h as nat == Self::spec_height(),
            1 <= h <= 128,
    ;

    /// A supported height lies between 1 and 128 rows.
    proof fn lemma_height_bounds()
        ensures
            1 <= Self::spec_height() <= 128,
    ;

    /// The word that holds no bit.
    fn zero() -> (z: Self)
        ensures
            z.word() == 0,
    ;

    /// Packs one column, the first boolean going to the most significant bit.
    fn pack_column(bits: &Vec<bool>) -> (r: Self)
        requires
            bits@.len() == Self::spec_height(),
        ensures
            r.word() == packed_value(bits@),
    ;

    /// Two words that stand for the same number are the same word.
    proof fn lemma_word_injective(a: Self, b: Self)
        ensures
            a.word() == b.word() ==> a == b,
    ;
}

impl PunchCardInner for bool {
    open spec fn spec_height() -> nat {
        1
    }

    open spec fn word(&self) -> nat {
        if *self { 1 } else { 0 }
    }

    fn height() -> (h: usize) {
        1
    }

    fn zero() -> (z: Self) {
        false
    }

    fn pack_column(bits: &Vec<bool>) -> (r: Self) {
        proof {
            assert(bits@.len() == 1);
            assert(packed_value(bits@.drop_last()) == 0);
        }
        bits[0]
    }

    proof fn lemma_height_bounds() {
    }

    proof fn lemma_word_injective(a: Self, b: Self) {
    }
}

impl PunchCardInner for u8 {
    open spec fn spec_height() -> nat {
        8
    }

    open spec fn word(&self) -> nat {
        *self as nat
    }

    fn height() -> (h: usize) {
        8
    }

    fn zero() -> (z: Self) {
        0
    }

    fn pack_column(bits: &Vec<bool>) -> (r: Self) {
        proof {
            lemma_packed_value_bound(bits@);
            lemma2_to64();
        }
        pack_bits(bits) as u8
    }

    proof fn lemma_height_bounds() {
    }

    proof fn lemma_word_injective(a: Self, b: Self) {
    }
}

impl PunchCardInner for u16 {
    open spec fn spec_height() -> nat {
        16
    }

    open spec fn word(&self) -> nat {
        *self as nat
    }

    fn height() -> (h: usize) {
        16
    }

    fn zero() -> (z: Self) {
        0
    }

    fn pack_column(bits: &Vec<bool>) -> (r: Self) {
        proof {
            lemma_packed_value_bound(bits@);
            lemma2_to64();
        }
        pack_bits(bits) as u16
    }

    proof fn lemma_height_bounds() {
    }

    proof fn lemma_word_injective(a: Self, b: Self) {
    }
}

impl PunchCardInner for u32 {
    open spec fn spec_height() -> nat {
        32
    }

    open spec fn word(&self) -> nat {
        *self as nat
    }

    fn height() -> (h: usize) {
        32
    }

    fn zero() -> (z: Self) {
        0
    }

    fn pack_column(bits: &Vec<bool>) -> (r: Self) {
        proof {
            lemma_packed_value_bound(bits@);
            lemma2_to64();
        }
        pack_bits(bits) as u32
    }

    proof fn lemma_height_bounds() {
    }

    proof fn lemma_word_injective(a: Self, b: Self) {
    }
}

impl PunchCardInner for u64 {
    open spec fn spec_height() -> nat {
        64
    }

    open spec fn word(&self) -> nat {
        *self as nat
    }

    fn height() -> (h: usize) {
        64
    }

    fn zero() -> (z: Self) {
        0
    }

    fn pack_column(bits: &Vec<bool>) -> (r: Self) {
        proof {
            lemma_packed_value_bound(bits@);
            lemma2_to64();
        }
        pack_bits(bits) as u64
    }

    proof fn lemma_height_bounds() {
    }

    proof fn lemma_word_injective(a: Self, b: Self) {
    }
}

impl PunchCardInner for u128 {
    open spec fn spec_height() -> nat {
        128
    }

    open spec fn word(&self) -> nat {
        *self as nat
    }

    fn height() -> (h: usize) {
        128
    }

    fn zero() -> (z: Self) {
        0
    }

    fn pack_column(bits: &Vec<bool>) -> (r: Self) {
        pack_bits(bits)
    }

    proof fn lemma_height_bounds() {
    }

    proof fn lemma_word_injective(a: Self, b: Self) {
    }
}

} // verus!
