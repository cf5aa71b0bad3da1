//! Strips: rows that OR themselves into a byte buffer, and the eight-row card
//! packed through them.

use vstd::prelude::*;

use crate::card::{column, is_first_mismatch, is_packing, is_uniform, LengthMismatch};
use crate::internal::{packed_value, PunchCardLine};
use crate::row::Row;

verus! {

/// `x` with the bits of `val` set where `b` holds, and unchanged elsewhere.
pub open spec fn or_if(x: u8, b: bool, val: u8) -> u8 {
    if b {
        x | val
    } else {
        x
    }
}

/// A row that can mark its booleans into a buffer of bytes.
pub trait StripPair: PunchCardLine {
    /// Sets the bits of `val` in byte `index + j` for every `j` at which the
    /// row holds a true, and leaves every other byte as it was. An empty row
    /// marks nothing, wherever `index` stands.
    fn eval(&self, out: &mut Vec<u8>, index: usize, val: u8)
        requires
            self.line().len() == 0 || index + self.line().len() <= old(out)@.len(),
        ensures
            final(out)@.len() == old(out)@.len(),
            forall|i: int|
                0 <= i < old(out)@.len() ==> #[trigger] final(out)@[i] == if index <= i < index
                    + self.line().len() {
                    or_if(old(out)@[i], self.line()[i - index], val)
                } else {
                    old(out)@[i]
                },
    ;

    /// `sum` plus the number of booleans in the row.
    fn len(&self, sum: usize) -> (n: usize)
        requires
            sum + self.line().len() <= usize::MAX,
        ensures
            n == sum + self.line().len(),
    ;
}

impl StripPair for Row {
    fn eval(&self, out: &mut Vec<u8>, index: usize, val: u8) {
        let n = self.length();
        let total = out.len();
        let mut j: usize = 0;
        while j < n
            invariant
                n == self.line().len(),
                n == 0 || index + n <= old(out)@.len(),
                total == old(out)@.len(),
                j <= n,
                out@.len() == old(out)@.len(),
                forall|i: int|
                    0 <= i < old(out)@.len() ==> #[trigger] out@[i] == if index <= i < index + j {
                        or_if(old(out)@[i], self.line()[i - index], val)
                    } else {
                        old(out)@[i]
                    },
            decreases n - j,
        {
            if self.at(j) {
                let marked = out[index + j] | val;
                out[index + j] = marked;
            }
            j += 1;
        }
    }

    fn len(&self, sum: usize) -> (n: usize) {
        sum + self.length()
    }
}

/// The rows of an eight-strip card, first strip first.
pub open spec fn eight_rows<S: StripPair>(
    v0: S,
    v1: S,
    v2: S,
    v3: S,
    v4: S,
    v5: S,
    v6: S,
    v7: S,
) -> Seq<Seq<bool>> {
    seq![v0.line(), v1.line(), v2.line(), v3.line(), v4.line(), v5.line(), v6.line(), v7.line()]
}

/// Nested marking of eight booleans, from the most significant bit down.
pub open spec fn or_eight(b: Seq<bool>) -> u8 {
    or_if(or_if(or_if(or_if(or_if(or_if(or_if(or_if(0, b[0], 0x80), b[1], 0x40), b[2], 0x20),
        b[3], 0x10), b[4], 0x08), b[5], 0x04), b[6], 0x02), b[7], 0x01)
}

/// Bits of distinct places marked one after the other add up.
proof fn lemma_or_bits(
    b0: bool,
    b1: bool,
    b2: bool,
    b3: bool,
    b4: bool,
    b5: bool,
    b6: bool,
    b7: bool,
)
    by (bit_vector)
    ensures
        or_if(or_if(or_if(or_if(or_if(or_if(or_if(or_if(0, b0, 0x80), b1, 0x40), b2, 0x20),
            b3, 0x10), b4, 0x08), b5, 0x04), b6, 0x02), b7, 0x01) == (if b0 { 0x80u8 } else { 0u8 })
            + (if b1 { 0x40u8 } else { 0u8 }) + (if b2 { 0x20u8 } else { 0u8 }) + (if b3 {
            0x10u8
        } else {
            0u8
        }) + (if b4 { 0x08u8 } else { 0u8 }) + (if b5 { 0x04u8 } else { 0u8 }) + (if b6 {
            0x02u8
        } else {
            0u8
        }) + (if b7 { 0x01u8 } else { 0u8 }),
{
}

/// Packing one more boolean doubles the value and adds the new bit.
proof fn lemma_packed_take(s: Seq<bool>, k: int)
    requires
        0 < k <= s.len(),
    ensures
        packed_value(s.take(k)) == 2 * packed_value(s.take(k - 1)) + (if s[k - 1] { 1nat } else { 0nat }),
{
    assert(s.take(k).drop_last() =~= s.take(k - 1));
}

/// Marking eight booleans one after the other gives the value they pack into.
proof fn lemma_or_eight(b: Seq<bool>)
    requires
        b.len() == 8,
    ensures
        or_eight(b) as nat == packed_value(b),
{
    lemma_or_bits(b[0], b[1], b[2], b[3], b[4], b[5], b[6], b[7]);
    assert(packed_value(b.take(0)) == 0);
    lemma_packed_take(b, 1);
    lemma_packed_take(b, 2);
    lemma_packed_take(b, 3);
    lemma_packed_take(b, 4);
    lemma_packed_take(b, 5);
    lemma_packed_take(b, 6);
    lemma_packed_take(b, 7);
    lemma_packed_take(b, 8);
    assert(b.take(8) =~= b);
}

/// Packs a card of eight strips into one byte per column, the first strip
/// giving the most significant bit. Every strip must be as long as the first
/// one; the first strip, in order, that is not is reported.
pub fn punch_card<S: StripPair>(
    v0: S,
    v1: S,
    v2: S,
    v3: S,
    v4: S,
    v5: S,
    v6: S,
    v7: S,
) -> (r: Result<Vec<u8>, LengthMismatch>)
    ensures
        r is Ok <==> is_uniform(eight_rows(v0, v1, v2, v3, v4, v5, v6, v7)),
        r matches Ok(out) ==> is_packing(eight_rows(v0, v1, v2, v3, v4, v5, v6, v7), out@),
        r matches Err(e) ==> is_first_mismatch(eight_rows(v0, v1, v2, v3, v4, v5, v6, v7), e),
{
    let ghost rows = eight_rows(v0, v1, v2, v3, v4, v5, v6, v7);
    let expected = v0.length();
    let n1 = v1.length();
    if n1 != expected {
        return Err(LengthMismatch { expected, row_index: 1, actual: n1 });
    }
    let n2 = v2.length();
    if n2 != expected {
        return Err(LengthMismatch { expected, row_index: 2, actual: n2 });
    }
    let n3 = v3.length();
    if n3 != expected {
        return Err(LengthMismatch { expected, row_index: 3, actual: n3 });
    }
    let n4 = v4.length();
    if n4 != expected {
        return Err(LengthMismatch { expected, row_index: 4, actual: n4 });
    }
    let n5 = v5.length();
    if n5 != expected {
        return Err(LengthMismatch { expected, row_index: 5, actual: n5 });
    }
    let n6 = v6.length();
    if n6 != expected {
        return Err(LengthMismatch { expected, row_index: 6, actual: n6 });
    }
    let n7 = v7.length();
    if n7 != expected {
        return Err(LengthMismatch { expected, row_index: 7, actual: n7 });
    }
    assert(is_uniform(rows));
    let mut out: Vec<u8> = Vec::new();
    let mut i: usize = 0;
    while i < expected
        invariant
            i <= expected,
            out@.len() == i,
            forall|j: int| 0 <= j < i ==> #[trigger] out@[j] == 0,
        decreases expected - i,
    {
        out.push(0);
        i += 1;
    }
    v0.eval(&mut out, 0, 0x80);
    v1.eval(&mut out, 0, 0x40);
    v2.eval(&mut out, 0, 0x20);
    v3.eval(&mut out, 0, 0x10);
    v4.eval(&mut out, 0, 0x08);
    v5.eval(&mut out, 0, 0x04);
    v6.eval(&mut out, 0, 0x02);
    v7.eval(&mut out, 0, 0x01);
    proof {
        assert forall|c: int| 0 <= c < out@.len() implies #[trigger] out@[c] as nat == packed_value(column(rows, c)) by {
            let col = column(rows, c);
            assert(col == seq![v0.line()[c], v1.line()[c], v2.line()[c], v3.line()[c], v4.line()[c], v5.line()[c], v6.line()[c], v7.line()[c]]);
            assert(out@[c] == or_eight(col));
            lemma_or_eight(col);
        }
    }
    Ok(out)
}

} // verus!
