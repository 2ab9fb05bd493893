//! Decimal digit counting and the per-metric column widths used to align
//! the output rows.

use vstd::prelude::*;
use crate::count::{CountsModel, FileCounts};

verus! {

/// Number of decimal digits of `n` (1 for 0).
pub open spec fn spec_digits(n: nat) -> nat
    decreases n,
{
    if n < 10 {
        1
    } else {
        1 + spec_digits(n / 10)
    }
}

/// The larger of two naturals.
pub open spec fn nat_max(a: nat, b: nat) -> nat {
    if a >= b {
        a
    } else {
        b
    }
}

/// The column width reserved for a metric value: one more than its digit
/// count, with a floor of two.
pub open spec fn width_for(v: nat) -> nat {
    nat_max(2, spec_digits(v) + 1)
}

pub proof fn lemma_digits_at_least_one(n: nat)
    ensures
        spec_digits(n) >= 1,
{
}

/// A positive value has at most as many digits as its own magnitude.
pub proof fn lemma_digits_le(n: nat)
    requires
        n >= 1,
    ensures
        spec_digits(n) <= n,
    decreases n,
{
    if n >= 10 {
        lemma_digits_le(n / 10);
    }
}

/// Digit counts never reach the machine-word bound.
pub proof fn lemma_digits_small(n: nat)
    requires
        n <= usize::MAX,
    ensures
        spec_digits(n) < usize::MAX,
    decreases n,
{
    if n < 10 {
    } else {
        lemma_digits_le(n / 10);
    }
}

/// Digit counting is monotone.
pub proof fn lemma_digits_mono(a: nat, b: nat)
    requires
        a <= b,
    ensures
        spec_digits(a) <= spec_digits(b),
    decreases b,
{
    if b < 10 {
    } else if a < 10 {
        lemma_digits_at_least_one(b);
    } else {
        lemma_digits_mono(a / 10, b / 10);
    }
}

/// Mathematical view of a set of column widths, one per metric kind.
pub ghost struct WidthsModel {
    pub lines: nat,
    pub words: nat,
    pub bytes: nat,
    pub chars: nat,
    pub max_line_length: nat,
}

/// The default widths: the floor of two for every column.
pub open spec fn default_widths() -> WidthsModel {
    WidthsModel { lines: 2, words: 2, bytes: 2, chars: 2, max_line_length: 2 }
}

/// Element-wise maximum of two width sets.
pub open spec fn widths_max(a: WidthsModel, b: WidthsModel) -> WidthsModel {
    WidthsModel {
        lines: nat_max(a.lines, b.lines),
        words: nat_max(a.words, b.words),
        bytes: nat_max(a.bytes, b.bytes),
        chars: nat_max(a.chars, b.chars),
        max_line_length: nat_max(a.max_line_length, b.max_line_length),
    }
}

/// One width-in-characters per metric kind.
#[derive(Clone, Copy, Debug)]
pub struct ColumnWidths {
    pub lines: usize,
    pub words: usize,
    pub bytes: usize,
    pub chars: usize,
    pub max_line_length: usize,
}

impl View for ColumnWidths {
    type V = WidthsModel;

    open spec fn view(&self) -> WidthsModel {
        WidthsModel {
            lines: self.lines as nat,
            words: self.words as nat,
            bytes: self.bytes as nat,
            chars: self.chars as nat,
            max_line_length: self.max_line_length as nat,
        }
    }
}

/// The larger of two machine words.
fn umax(a: usize, b: usize) -> (r: usize)
    ensures
        r == nat_max(a as nat, b as nat),
{
    if a >= b {
        a
    } else {
        b
    }
}

impl ColumnWidths {
    /// Element-wise maximum with another set of widths.
    pub fn max(&self, other: Self) -> (r: Self)
        ensures
            r@ == widths_max(self@, other@),
    {
        ColumnWidths {
            lines: umax(self.lines, other.lines),
            words: umax(self.words, other.words),
            bytes: umax(self.bytes, other.bytes),
            chars: umax(self.chars, other.chars),
            max_line_length: umax(self.max_line_length, other.max_line_length),
        }
    }
}

/// The column widths that one source's metrics ask for.
pub open spec fn widths_for(c: CountsModel) -> WidthsModel {
    WidthsModel {
        lines: width_for(c.lines),
        words: width_for(c.words),
        bytes: width_for(c.bytes),
        chars: width_for(c.chars),
        max_line_length: width_for(c.max_line_length),
    }
}

impl ColumnWidths {
    /// The widths needed to print one source's metrics.
    pub fn from_counts(value: &FileCounts) -> (r: Self)
        ensures
            r@ == widths_for(value@),
    {
        proof {
            lemma_digits_small(value.lines as nat);
            lemma_digits_small(value.words as nat);
            lemma_digits_small(value.bytes as nat);
            lemma_digits_small(value.chars as nat);
            lemma_digits_small(value.max_line_length as nat);
            lemma_digits_at_least_one(value.lines as nat);
            lemma_digits_at_least_one(value.words as nat);
            lemma_digits_at_least_one(value.bytes as nat);
            lemma_digits_at_least_one(value.chars as nat);
            lemma_digits_at_least_one(value.max_line_length as nat);
        }
        ColumnWidths {
            lines: digits(value.lines) + 1,
            words: digits(value.words) + 1,
            bytes: digits(value.bytes) + 1,
            chars: digits(value.chars) + 1,
            max_line_length: digits(value.max_line_length) + 1,
        }
    }
}

impl Default for ColumnWidths {
    /// The starting widths, before any source was counted.
    fn default() -> (r: Self)
        ensures
            r@ == default_widths(),
    {
        ColumnWidths { lines: 2, words: 2, bytes: 2, chars: 2, max_line_length: 2 }
    }
}

/// The largest of a sequence of values, zero when there are none.
pub open spec fn max_of(vals: Seq<nat>) -> nat
    decreases vals.len(),
{
    if vals.len() == 0 {
        0
    } else {
        nat_max(max_of(vals.drop_last()), vals.last())
    }
}

/// One metric's column width folded over the values seen so far, starting
/// from the floor of two.
pub open spec fn folded_width(vals: Seq<nat>) -> nat
    decreases vals.len(),
{
    if vals.len() == 0 {
        2
    } else {
        nat_max(folded_width(vals.drop_last()), width_for(vals.last()))
    }
}

/// The width a metric's column ends up with is determined by the largest
/// value alone: two, or one more than the digit count of the largest
/// value seen, whichever is greater.
pub proof fn lemma_column_width_of_values(vals: Seq<nat>)
    ensures
        folded_width(vals) == nat_max(2, spec_digits(max_of(vals)) + 1),
    decreases vals.len(),
{
    if vals.len() == 0 {
    } else {
        lemma_column_width_of_values(vals.drop_last());
        let m = max_of(vals.drop_last());
        let v = vals.last();
        if m <= v {
            lemma_digits_mono(m, v);
        } else {
            lemma_digits_mono(v, m);
        }
    }
}

/// The same, with the total row's value folded in: the final column width
/// is two, or one more than the digit count of the largest value among
/// all printed rows, the total included, whichever is greater.
pub proof fn lemma_final_column_width(vals: Seq<nat>, total: nat)
    ensures
        nat_max(folded_width(vals), width_for(total)) == nat_max(
            2,
            spec_digits(nat_max(max_of(vals), total)) + 1,
        ),
{
    lemma_column_width_of_values(vals.push(total));
    assert(vals.push(total).drop_last() =~= vals);
}

/// Find the number of decimal digits of a value.
pub fn digits(n: usize) -> (r: usize)
    ensures
        r == spec_digits(n as nat),
{
    if n == 0 {
        return 1;
    }
    proof {
        lemma_digits_le(n as nat);
    }
    let mut digs: usize = 0;
    let mut m: usize = n;
    while m > 0
        invariant
            spec_digits(n as nat) <= n,
            m > 0 ==> digs + spec_digits(m as nat) == spec_digits(n as nat),
            m == 0 ==> digs == spec_digits(n as nat),
            digs <= spec_digits(n as nat),
        decreases m,
    {
        m = m / 10;
        digs = digs + 1;
    }
    digs
}

} // verus!
