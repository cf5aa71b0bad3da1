//! The card: rows of one common length, checked up front, packed column by
//! column into a growable or a fixed-capacity output.

use core::marker::PhantomData;

use vstd::prelude::*;

use crate::internal::{bit_of, lemma_packed_bit, packed_value, PunchCardInner, PunchCardLine};
use crate::row::Row;

verus! {

/// The booleans of each row, in order.
pub open spec fn lines_of(rows: Seq<Row>) -> Seq<Seq<bool>> {
    rows.map_values(|r: Row| r.line())
}

/// Length of a card: that of its first row, or 0 for a card without rows.
pub open spec fn card_length(rows: Seq<Seq<bool>>) -> nat {
    if rows.len() == 0 {
        0
    } else {
        rows[0].len()
    }
}

/// Every row is as long as the first one.
pub open spec fn is_uniform(rows: Seq<Seq<bool>>) -> bool {
    forall|h: int| 0 <= h < rows.len() ==> #[trigger] rows[h].len() == card_length(rows)
}

/// Column `c` of a card: one boolean from each row, first row first.
pub open spec fn column(rows: Seq<Seq<bool>>, c: int) -> Seq<bool> {
    Seq::new(rows.len(), |h: int| rows[h][c])
}

/// `out` holds one word per column of the card, each packed from its column.
pub open spec fn is_packing<W: PunchCardInner>(rows: Seq<Seq<bool>>, out: Seq<W>) -> bool {
    &&& out.len() == card_length(rows)
    &&& forall|c: int|
        0 <= c < out.len() ==> #[trigger] out[c].word() == packed_value(column(rows, c))
}

/// A row whose length differs from that of the first row.
#[derive(Clone, Copy, Debug, PartialEq, Eq, Structural)]
pub struct LengthMismatch {
    /// Length of the first row.
    pub expected: usize,
    /// Index of the offending row.
    pub row_index: usize,
    /// Length of the offending row.
    pub actual: usize,
}

/// A fixed-capacity output declared with a capacity other than the card's length.
#[derive(Clone, Copy, Debug, PartialEq, Eq, Structural)]
pub struct CapacityMismatch {
    /// Length of the card.
    pub expected: usize,
    /// Declared capacity of the output.
    pub provided: usize,
}

/// `e` reports the first row, in order, whose length differs from the first row's.
pub open spec fn is_first_mismatch(rows: Seq<Seq<bool>>, e: LengthMismatch) -> bool {
    &&& 0 < e.row_index < rows.len()
    &&& e.expected == rows[0].len()
    &&& e.actual == rows[e.row_index as int].len()
    &&& e.actual != e.expected
    &&& forall|h: int| 0 <= h < e.row_index ==> #[trigger] rows[h].len() == rows[0].len()
}

/// Where packing puts its words.
#[derive(Clone, Copy, Debug, PartialEq, Eq, Structural)]
pub enum SinkKind {
    /// Starts empty and takes one word per column; never fails.
    Growable,
    /// A buffer of the declared capacity, written by column index; the
    /// capacity must equal the card's length.
    Fixed(usize),
}

/// A card: as many rows as the word `W` has bits, all of one length.
pub struct Matrix<W> {
    rows: Vec<Row>,
    length: usize,
    word: PhantomData<W>,
}

/// Something that packs into one word per column.
pub trait PunchCard {
    /// The word that each column packs into.
    type Output: PunchCardInner;

    /// The rows of the card, each as its sequence of booleans.
    spec fn card(&self) -> Seq<Seq<bool>>;

    /// The card has the height of its word and rows of one length.
    spec fn well_formed(&self) -> bool;

    /// Packs every column of the card, in order, into a growable output.
    fn punch_card(&self) -> (out: Vec<Self::Output>)
        requires
            self.well_formed(),
        ensures
            is_packing(self.card(), out@),
    ;
}

impl<W: PunchCardInner> PunchCard for Matrix<W> {
    type Output = W;

    closed spec fn card(&self) -> Seq<Seq<bool>> {
        lines_of(self.rows@)
    }

    closed spec fn well_formed(&self) -> bool {
        &&& self.rows@.len() == W::spec_height()
        &&& is_uniform(self.card())
        &&& self.length == card_length(self.card())
    }

    fn punch_card(&self) -> (out: Vec<W>) {
        let mut out: Vec<W> = Vec::new();
        let mut c: usize = 0;
        while c < self.length
            invariant
                self.well_formed(),
                c <= self.length,
                out@.len() == c,
                forall|j: int|
                    0 <= j < c ==> #[trigger] out@[j].word() == packed_value(column(self.card(), j)),
            decreases self.length - c,
        {
            let bits = self.column_bits(c);
            let w = W::pack_column(&bits);
            out.push(w);
            c += 1;
        }
        out
    }
}

impl<W: PunchCardInner> Matrix<W> {
    /// Builds a card from its rows, first row first, after checking that every
    /// row is as long as the first one.
    pub fn new(rows: Vec<Row>) -> (r: Result<Matrix<W>, LengthMismatch>)
        requires
            rows@.len() == W::spec_height(),
        ensures
            r is Ok <==> is_uniform(lines_of(rows@)),
            r matches Ok(m) ==> m.well_formed() && m.card() == lines_of(rows@),
            r matches Err(e) ==> is_first_mismatch(lines_of(rows@), e),
    {
        proof {
            W::lemma_height_bounds();
        }
        let expected = rows[0].length();
        let mut h: usize = 1;
        while h < rows.len()
            invariant
                1 <= h <= rows@.len(),
                expected == rows@[0].line().len(),
                forall|k: int| 0 <= k < h ==> #[trigger] rows@[k].line().len() == expected,
            decreases rows@.len() - h,
        {
            let actual = rows[h].length();
            if actual != expected {
                assert(lines_of(rows@)[h as int].len() != card_length(lines_of(rows@)));
                return Err(LengthMismatch { expected, row_index: h, actual });
            }
            h += 1;
        }
        Ok(Matrix { rows, length: expected, word: PhantomData })
    }

    /// A well-formed card has as many rows as its word has bits, and every row
    /// is as long as the first one.
    pub proof fn lemma_well_formed(&self)
        requires
            self.well_formed(),
        ensures
            self.card().len() == W::spec_height(),
            is_uniform(self.card()),
    {
    }

    /// Length of every row of the card.
    pub fn length(&self) -> (n: usize)
        requires
            self.well_formed(),
        ensures
            n == card_length(self.card()),
    {
        self.length
    }

    /// Number of rows of the card.
    pub fn height(&self) -> (n: usize)
        ensures
            n == self.card().len(),
    {
        self.rows.len()
    }

    /// The booleans of column `c`, one from each row, first row first.
    fn column_bits(&self, c: usize) -> (bits: Vec<bool>)
        requires
            self.well_formed(),
            c < self.length,
        ensures
            bits@ == column(self.card(), c as int),
    {
        let mut bits: Vec<bool> = Vec::new();
        let mut h: usize = 0;
        while h < self.rows.len()
            invariant
                self.well_formed(),
                c < self.length,
                h <= self.rows@.len(),
                bits@ == column(self.card(), c as int).take(h as int),
            decreases self.rows@.len() - h,
        {
            assert(self.card()[h as int].len() == self.length);
            bits.push(self.rows[h].at(c));
            proof {
                assert(column(self.card(), c as int).take(h as int + 1)
                    == column(self.card(), c as int).take(h as int).push(self.card()[h as int][c as int]));
            }
            h += 1;
        }
        proof {
            assert(column(self.card(), c as int).take(h as int) == column(self.card(), c as int));
        }
        bits
    }

    /// Packs every column into a buffer of `capacity` words, written by column
    /// index.
    fn pack_fixed(&self, capacity: usize) -> (r: Result<Vec<W>, CapacityMismatch>)
        requires
            self.well_formed(),
        ensures
            r is Ok <==> capacity == self.length,
            r matches Ok(out) ==> is_packing(self.card(), out@),
            r matches Err(e) ==> e == (CapacityMismatch { expected: self.length, provided: capacity }),
    {
        if capacity != self.length {
            return Err(CapacityMismatch { expected: self.length, provided: capacity });
        }
        let mut out: Vec<W> = Vec::new();
        let mut i: usize = 0;
        while i < capacity
            invariant
                i <= capacity,
                out@.len() == i,
            decreases capacity - i,
        {
            out.push(W::zero());
            i += 1;
        }
        let mut c: usize = 0;
        while c < capacity
            invariant
                self.well_formed(),
                capacity == self.length,
                c <= capacity,
                out@.len() == capacity,
                forall|j: int|
                    0 <= j < c ==> #[trigger] out@[j].word() == packed_value(column(self.card(), j)),
            decreases capacity - c,
        {
            let bits = self.column_bits(c);
            out[c] = W::pack_column(&bits);
            c += 1;
        }
        Ok(out)
    }

    /// Packs every column of the card, in order, into the chosen output.
    pub fn pack(&self, sink: SinkKind) -> (r: Result<Vec<W>, CapacityMismatch>)
        requires
            self.well_formed(),
        ensures
            match sink {
                SinkKind::Growable => r is Ok,
                SinkKind::Fixed(capacity) => {
                    &&& (r is Ok <==> capacity == card_length(self.card()))
                    &&& (r matches Err(e) ==> e == (CapacityMismatch {
                        expected: card_length(self.card()) as usize,
                        provided: capacity,
                    }))
                },
            },
            r matches Ok(out) ==> is_packing(self.card(), out@),
    {
        match sink {
            SinkKind::Growable => Ok(self.punch_card()),
            SinkKind::Fixed(capacity) => self.pack_fixed(capacity),
        }
    }
}

/// Bit-exactness: in the word packed from column `c`, bit `H - 1 - h` (counted
/// from the least significant) is the boolean of row `h` at column `c`, for a
/// card of `H` rows.
pub proof fn law_bit_exact<W: PunchCardInner>(rows: Seq<Seq<bool>>, out: Seq<W>, c: int, h: int)
    requires
        is_packing(rows, out),
        0 <= c < out.len(),
        0 <= h < rows.len(),
    ensures
        bit_of(out[c].word(), (rows.len() - 1 - h) as nat) == rows[h][c],
{
    lemma_packed_bit(column(rows, c), h);
}

/// A card of a single row packs into that row's booleans, unchanged.
pub proof fn law_single_row(rows: Seq<Seq<bool>>, out: Seq<bool>)
    requires
        rows.len() == 1,
        is_packing(rows, out),
    ensures
        out == rows[0],
{
    assert forall|c: int| 0 <= c < out.len() implies out[c] == rows[0][c] by {
        let col = column(rows, c);
        assert(out[c].word() == packed_value(col));
        assert(col.drop_last().len() == 0);
        assert(packed_value(col.drop_last()) == 0);
    }
    assert(out =~= rows[0]);
}

/// Any two packings of one card agree word for word: packing the same card
/// twice, or into a growable and into a fixed-capacity output, gives the same
/// words.
pub proof fn law_packing_unique<W: PunchCardInner>(rows: Seq<Seq<bool>>, a: Seq<W>, b: Seq<W>)
    requires
        is_packing(rows, a),
        is_packing(rows, b),
    ensures
        a == b,
{
    assert forall|c: int| 0 <= c < a.len() implies a[c] == b[c] by {
        assert(a[c].word() == b[c].word());
        W::lemma_word_injective(a[c], b[c]);
    }
    assert(a =~= b);
}

} // verus!
