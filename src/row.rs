//! The plain row: a vector of booleans with its length.

use vstd::prelude::*;

use crate::internal::PunchCardLine;

verus! {

/// A row held as a vector of booleans. Its contents never change once built.
#[derive(Debug)]
pub struct Row {
    bits: Vec<bool>,
}

impl Row {
    /// Makes a row of the given booleans, in order.
    pub fn new(bits: Vec<bool>) -> (r: Row)
        ensures
            r.line() == bits@,
    {
        Row { bits }
    }
}

impl PunchCardLine for Row {
    closed spec fn line(&self) -> Seq<bool> {
        self.bits@
    }

    fn length(&self) -> (n: usize) {
        self.bits.len()
    }

    fn at(&self, column: usize) -> (b: bool) {
        self.bits[column]
    }
}

/// The text of a row: `1` for each true and `0` for each false boolean, in
/// order, closed by a `.`.
pub open spec fn rendered(line: Seq<bool>) -> Seq<char> {
    line.map_values(|b: bool| if b { '1' } else { '0' }).push('.')
}

/// Writes a row out as digits, one per boolean, closed by a `.`.
pub fn eval_strip<L: PunchCardLine>(strip: &L) -> (text: Vec<char>)
    ensures
        text@ == rendered(strip.line()),
{
    let n = strip.length();
    let mut text: Vec<char> = Vec::new();
    let mut i: usize = 0;
    while i < n
        invariant
            n == strip.line().len(),
            i <= n,
            text@ == strip.line().take(i as int).map_values(|b: bool| if b { '1' } else { '0' }),
        decreases n - i,
    {
        let digit = if strip.at(i) { '1' } else { '0' };
        text.push(digit);
        proof {
            assert(strip.line().take(i as int + 1) == strip.line().take(i as int).push(strip.line()[i as int]));
        }
        i += 1;
    }
    proof {
        assert(strip.line().take(n as int) == strip.line());
    }
    text.push('.');
    text
}

} // verus!
