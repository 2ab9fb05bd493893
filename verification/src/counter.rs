//! The aggregator: per-source results in arrival order, the running
//! column widths and the running totals, and the once-only reading of
//! standard input.

use vstd::prelude::*;
use vstd::string::StringExecFns;
use crate::count::{combine_counts, stream_counts, zero_counts, CountsModel, FileCounts};
use crate::source::Input;
use crate::widths::{default_widths, nat_max, widths_for, widths_max, ColumnWidths, WidthsModel,
    max_of};

verus! {

/// The label a counted source is printed with.
#[derive(Debug)]
pub enum CountsName {
    File(String),
    StdIn,
    Blank,
    Total,
}

/// Why a source could not be counted.
#[derive(Debug)]
pub enum Error {
    /// The path does not exist.
    NoFile(String),
    /// The path exists but is a directory.
    IsDirectory(String),
    /// The path exists and is a file, but opening or reading it failed;
    /// carries the text of the underlying failure.
    FileCount(String, String),
}

/// The line an error is reported with on the error stream.
pub open spec fn spec_message(e: Error) -> Seq<char> {
    match e {
        Error::NoFile(p) => "mwc: "@ + p@ + ": No such file or directory"@,
        Error::IsDirectory(p) => "mwc: "@ + p@ + ": Is a directory"@,
        Error::FileCount(p, m) => "mwc: "@ + p@ + ": File read error: "@ + m@,
    }
}

impl Error {
    /// Render the error as the line it is reported with.
    pub fn message(&self) -> (r: String)
        ensures
            r@ == spec_message(*self),
    {
        let mut s = String::new();
        s.append("mwc: ");
        match self {
            Error::NoFile(p) => {
                s.append(p.as_str());
                s.append(": No such file or directory");
            },
            Error::IsDirectory(p) => {
                s.append(p.as_str());
                s.append(": Is a directory");
            },
            Error::FileCount(p, m) => {
                s.append(p.as_str());
                s.append(": File read error: ");
                s.append(m.as_str());
            },
        }
        s
    }
}

/// One successfully counted source: its label and its metrics.
pub struct CountedInput(pub CountsName, pub FileCounts);

/// What the caller must do next with a source it handed to the counter.
pub enum InputAction {
    /// Open and read this file, then report the outcome.
    OpenFile(String),
    /// Read standard input, then report what was counted.
    ReadStdin,
    /// Nothing: the source was recorded already.
    Recorded,
}

/// The running totals: the metrics of every successful result merged, in
/// order.
pub open spec fn totals_of(results: Seq<Result<CountedInput, Error>>) -> CountsModel
    decreases results.len(),
{
    if results.len() == 0 {
        zero_counts()
    } else {
        let prev = totals_of(results.drop_last());
        match results.last() {
            Ok(ci) => combine_counts(prev, ci.1@),
            Err(_) => prev,
        }
    }
}

/// The running column widths: the widths of every successful result
/// folded over the defaults.
pub open spec fn widths_of(results: Seq<Result<CountedInput, Error>>) -> WidthsModel
    decreases results.len(),
{
    if results.len() == 0 {
        default_widths()
    } else {
        let prev = widths_of(results.drop_last());
        match results.last() {
            Ok(ci) => widths_max(prev, widths_for(ci.1@)),
            Err(_) => prev,
        }
    }
}

/// The metrics of the successful results, in order.
pub open spec fn ok_counts(results: Seq<Result<CountedInput, Error>>) -> Seq<CountsModel>
    decreases results.len(),
{
    if results.len() == 0 {
        Seq::empty()
    } else {
        let prev = ok_counts(results.drop_last());
        match results.last() {
            Ok(ci) => prev.push(ci.1@),
            Err(_) => prev,
        }
    }
}

/// The sum of a sequence of values.
pub open spec fn sum_of(vals: Seq<nat>) -> nat
    decreases vals.len(),
{
    if vals.len() == 0 {
        0
    } else {
        sum_of(vals.drop_last()) + vals.last()
    }
}

/// The state of one run: every source's result in arrival order, the
/// running widths and totals, and whether standard input was read.
pub struct Counter {
    pub file_counts: Vec<Result<CountedInput, Error>>,
    pub widths: ColumnWidths,
    pub totals: FileCounts,
    pub stdin_seen: bool,
}

impl Counter {
    /// The widths and totals always agree with the recorded results.
    pub open spec fn wf(&self) -> bool {
        &&& self.totals@ == totals_of(self.file_counts@)
        &&& self.totals.wf()
        &&& self.widths@ == widths_of(self.file_counts@)
    }

    /// A counter with nothing recorded.
    pub fn new() -> (r: Self)
        ensures
            r.wf(),
            r.file_counts@ == Seq::<Result<CountedInput, Error>>::empty(),
            r.totals@ == zero_counts(),
            r.widths@ == default_widths(),
            !r.stdin_seen,
    {
        Counter {
            file_counts: Vec::new(),
            widths: ColumnWidths::default(),
            totals: FileCounts::new(),
            stdin_seen: false,
        }
    }

    /// Record one source's metrics: widen the columns to fit them, merge
    /// them into the totals, and append the result in arrival order.
    pub fn apply_counts(&mut self, name: CountsName, counts: FileCounts)
        requires
            old(self).wf(),
            counts.wf(),
            old(self).totals@.bytes + counts@.bytes <= usize::MAX,
        ensures
            final(self).wf(),
            final(self).file_counts@ == old(self).file_counts@.push(
                Ok::<CountedInput, Error>(CountedInput(name, counts)),
            ),
            final(self).totals@ == combine_counts(old(self).totals@, counts@),
            final(self).widths@ == widths_max(old(self).widths@, widths_for(counts@)),
            final(self).stdin_seen == old(self).stdin_seen,
    {
        self.widths = self.widths.max(ColumnWidths::from_counts(&counts));
        self.totals.add_assign(&counts);
        self.file_counts.push(Ok(CountedInput(name, counts)));
        proof {
            assert(self.file_counts@.drop_last() =~= old(self).file_counts@);
        }
    }

    /// Record that a source could not be counted; the widths and totals
    /// are untouched and later sources are unaffected.
    pub fn record_error(&mut self, error: Error)
        requires
            old(self).wf(),
        ensures
            final(self).wf(),
            final(self).file_counts@ == old(self).file_counts@.push(
                Err::<CountedInput, Error>(error),
            ),
            final(self).totals == old(self).totals,
            final(self).widths == old(self).widths,
            final(self).stdin_seen == old(self).stdin_seen,
    {
        self.file_counts.push(Err(error));
        proof {
            assert(self.file_counts@.drop_last() =~= old(self).file_counts@);
        }
    }

    /// Record an already-exhausted standard input: an all-zero result
    /// under the stdin label.
    pub fn count_default(&mut self)
        requires
            old(self).wf(),
        ensures
            final(self).wf(),
            final(self).file_counts@ == old(self).file_counts@.push(
                Ok::<CountedInput, Error>(CountedInput(CountsName::StdIn, zero_file_counts())),
            ),
            final(self).totals == old(self).totals,
            final(self).widths@ == old(self).widths@,
            final(self).stdin_seen == old(self).stdin_seen,
    {
        let counts = FileCounts::new();
        proof {
            lemma_widths_at_least_default(self.file_counts@);
        }
        self.apply_counts(CountsName::StdIn, counts);
        proof {
            assert(final(self).totals@ == old(self).totals@);
            assert(final(self).totals == old(self).totals);
        }
    }

    /// Decide what to do with one requested source. A file is handed back
    /// to be opened; standard input is read the first time it appears and
    /// recorded as all zeroes on every later appearance, because the
    /// stream is already exhausted.
    pub fn count_input(&mut self, input: Input) -> (action: InputAction)
        requires
            old(self).wf(),
        ensures
            final(self).wf(),
            match input {
                Input::File(p) => *final(self) == *old(self) && action == InputAction::OpenFile(p),
                Input::StdIn => {
                    if !old(self).stdin_seen {
                        &&& final(self).file_counts == old(self).file_counts
                        &&& final(self).totals == old(self).totals
                        &&& final(self).widths == old(self).widths
                        &&& final(self).stdin_seen
                        &&& action == InputAction::ReadStdin
                    } else {
                        &&& final(self).file_counts@ == old(self).file_counts@.push(
                            Ok::<CountedInput, Error>(
                                CountedInput(CountsName::StdIn, zero_file_counts()),
                            ),
                        )
                        &&& final(self).totals == old(self).totals
                        &&& final(self).widths@ == old(self).widths@
                        &&& final(self).stdin_seen
                        &&& action == InputAction::Recorded
                    }
                },
            },
    {
        match input {
            Input::File(path) => InputAction::OpenFile(path),
            Input::StdIn => {
                if !self.stdin_seen {
                    self.stdin_seen = true;
                    InputAction::ReadStdin
                } else {
                    self.count_default();
                    InputAction::Recorded
                }
            },
        }
    }

    /// Count a whole stream under the given label and record the result.
    pub fn count_reader(&mut self, name: CountsName, content: &[u8])
        requires
            old(self).wf(),
            old(self).totals@.bytes + content@.len() <= usize::MAX,
        ensures
            final(self).wf(),
            final(self).file_counts@.len() == old(self).file_counts@.len() + 1,
            final(self).file_counts@.drop_last() == old(self).file_counts@,
            match final(self).file_counts@.last() {
                Ok(ci) => ci.0 == name && ci.1@ == stream_counts(content@),
                Err(_) => false,
            },
            final(self).totals@ == combine_counts(old(self).totals@, stream_counts(content@)),
            final(self).widths@ == widths_max(
                old(self).widths@,
                widths_for(stream_counts(content@)),
            ),
            final(self).stdin_seen == old(self).stdin_seen,
    {
        let counts = FileCounts::from_reader(content);
        self.apply_counts(name, counts);
        proof {
            assert(self.file_counts@.drop_last() =~= old(self).file_counts@);
        }
    }
}

/// The folded widths never fall below the floor of two.
pub proof fn lemma_widths_at_least_default(results: Seq<Result<CountedInput, Error>>)
    ensures
        widths_of(results).lines >= 2,
        widths_of(results).words >= 2,
        widths_of(results).bytes >= 2,
        widths_of(results).chars >= 2,
        widths_of(results).max_line_length >= 2,
    decreases results.len(),
{
    if results.len() > 0 {
        lemma_widths_at_least_default(results.drop_last());
    }
}

/// A `FileCounts` value with every metric at zero.
pub open spec fn zero_file_counts() -> FileCounts {
    FileCounts { lines: 0, words: 0, bytes: 0, chars: 0, max_line_length: 0 }
}

/// The total row aggregates the successful sources and nothing else:
/// lines, words, bytes and characters are the sums of the per-source
/// values, and the maximum line width is their maximum, never a sum.
pub proof fn lemma_total_row_aggregates(results: Seq<Result<CountedInput, Error>>)
    ensures
        totals_of(results).lines == sum_of(ok_counts(results).map_values(|c: CountsModel| c.lines)),
        totals_of(results).words == sum_of(ok_counts(results).map_values(|c: CountsModel| c.words)),
        totals_of(results).bytes == sum_of(ok_counts(results).map_values(|c: CountsModel| c.bytes)),
        totals_of(results).chars == sum_of(ok_counts(results).map_values(|c: CountsModel| c.chars)),
        totals_of(results).max_line_length == max_of(
            ok_counts(results).map_values(|c: CountsModel| c.max_line_length),
        ),
    decreases results.len(),
{
    if results.len() == 0 {
    } else {
        lemma_total_row_aggregates(results.drop_last());
        let prev = ok_counts(results.drop_last());
        match results.last() {
            Ok(ci) => {
                assert(ok_counts(results) == prev.push(ci.1@));
                assert(prev.push(ci.1@).map_values(|c: CountsModel| c.lines).drop_last()
                    =~= prev.map_values(|c: CountsModel| c.lines));
                assert(prev.push(ci.1@).map_values(|c: CountsModel| c.words).drop_last()
                    =~= prev.map_values(|c: CountsModel| c.words));
                assert(prev.push(ci.1@).map_values(|c: CountsModel| c.bytes).drop_last()
                    =~= prev.map_values(|c: CountsModel| c.bytes));
                assert(prev.push(ci.1@).map_values(|c: CountsModel| c.chars).drop_last()
                    =~= prev.map_values(|c: CountsModel| c.chars));
                assert(prev.push(ci.1@).map_values(|c: CountsModel| c.max_line_length).drop_last()
                    =~= prev.map_values(|c: CountsModel| c.max_line_length));
            },
            Err(_) => {
                assert(ok_counts(results) == prev);
            },
        }
    }
}

/// Each final column width is pinned by the largest value of its metric
/// among the successful sources: two, or one more than that value's digit
/// count, whichever is greater.
pub proof fn lemma_widths_track_largest(results: Seq<Result<CountedInput, Error>>)
    ensures
        widths_of(results).lines == nat_max(
            2,
            crate::widths::spec_digits(max_of(ok_counts(results).map_values(|c: CountsModel| c.lines)))
                + 1,
        ),
        widths_of(results).words == nat_max(
            2,
            crate::widths::spec_digits(max_of(ok_counts(results).map_values(|c: CountsModel| c.words)))
                + 1,
        ),
        widths_of(results).bytes == nat_max(
            2,
            crate::widths::spec_digits(max_of(ok_counts(results).map_values(|c: CountsModel| c.bytes)))
                + 1,
        ),
        widths_of(results).chars == nat_max(
            2,
            crate::widths::spec_digits(max_of(ok_counts(results).map_values(|c: CountsModel| c.chars)))
                + 1,
        ),
        widths_of(results).max_line_length == nat_max(
            2,
            crate::widths::spec_digits(
                max_of(ok_counts(results).map_values(|c: CountsModel| c.max_line_length)),
            ) + 1,
        ),
    decreases results.len(),
{
    lemma_widths_fold(results);
    crate::widths::lemma_column_width_of_values(
        ok_counts(results).map_values(|c: CountsModel| c.lines),
    );
    crate::widths::lemma_column_width_of_values(
        ok_counts(results).map_values(|c: CountsModel| c.words),
    );
    crate::widths::lemma_column_width_of_values(
        ok_counts(results).map_values(|c: CountsModel| c.bytes),
    );
    crate::widths::lemma_column_width_of_values(
        ok_counts(results).map_values(|c: CountsModel| c.chars),
    );
    crate::widths::lemma_column_width_of_values(
        ok_counts(results).map_values(|c: CountsModel| c.max_line_length),
    );
}

/// The widths fold is, per metric, the fold of the per-source widths.
proof fn lemma_widths_fold(results: Seq<Result<CountedInput, Error>>)
    ensures
        widths_of(results).lines == crate::widths::folded_width(
            ok_counts(results).map_values(|c: CountsModel| c.lines),
        ),
        widths_of(results).words == crate::widths::folded_width(
            ok_counts(results).map_values(|c: CountsModel| c.words),
        ),
        widths_of(results).bytes == crate::widths::folded_width(
            ok_counts(results).map_values(|c: CountsModel| c.bytes),
        ),
        widths_of(results).chars == crate::widths::folded_width(
            ok_counts(results).map_values(|c: CountsModel| c.chars),
        ),
        widths_of(results).max_line_length == crate::widths::folded_width(
            ok_counts(results).map_values(|c: CountsModel| c.max_line_length),
        ),
    decreases results.len(),
{
    if results.len() == 0 {
    } else {
        lemma_widths_fold(results.drop_last());
        let prev = ok_counts(results.drop_last());
        match results.last() {
            Ok(ci) => {
                assert(ok_counts(results) == prev.push(ci.1@));
                assert(prev.push(ci.1@).map_values(|c: CountsModel| c.lines).drop_last()
                    =~= prev.map_values(|c: CountsModel| c.lines));
                assert(prev.push(ci.1@).map_values(|c: CountsModel| c.words).drop_last()
                    =~= prev.map_values(|c: CountsModel| c.words));
                assert(prev.push(ci.1@).map_values(|c: CountsModel| c.bytes).drop_last()
                    =~= prev.map_values(|c: CountsModel| c.bytes));
                assert(prev.push(ci.1@).map_values(|c: CountsModel| c.chars).drop_last()
                    =~= prev.map_values(|c: CountsModel| c.chars));
                assert(prev.push(ci.1@).map_values(|c: CountsModel| c.max_line_length).drop_last()
                    =~= prev.map_values(|c: CountsModel| c.max_line_length));
            },
            Err(_) => {
                assert(ok_counts(results) == prev);
            },
        }
    }
}

} // verus!
