//! The column formatter: metric values rendered right-aligned in their
//! columns, followed by the source's label.

use vstd::prelude::*;
use vstd::string::StringExecFns;
use crate::config::CountsConfig;
use crate::count::{CountsModel, FileCounts};
use crate::counter::{spec_message, CountedInput, Counter, CountsName, Error};
use crate::widths::{digits, spec_digits, widths_for, widths_max, ColumnWidths, WidthsModel};

verus! {

/// `k` spaces.
pub open spec fn spec_spaces(k: nat) -> Seq<char> {
    Seq::new(k, |i: int| ' ')
}

/// The character for one decimal digit.
pub open spec fn digit_char(d: nat) -> char {
    if d == 0 {
        '0'
    } else if d == 1 {
        '1'
    } else if d == 2 {
        '2'
    } else if d == 3 {
        '3'
    } else if d == 4 {
        '4'
    } else if d == 5 {
        '5'
    } else if d == 6 {
        '6'
    } else if d == 7 {
        '7'
    } else if d == 8 {
        '8'
    } else {
        '9'
    }
}

/// The decimal rendering of `n`, most significant digit first.
pub open spec fn spec_decimal(n: nat) -> Seq<char>
    decreases n,
{
    if n < 10 {
        seq![digit_char(n)]
    } else {
        spec_decimal(n / 10).push(digit_char(n % 10))
    }
}

/// The decimal rendering has exactly the digit count's characters.
pub proof fn lemma_decimal_len(n: nat)
    ensures
        spec_decimal(n).len() == spec_digits(n),
    decreases n,
{
    if n >= 10 {
        lemma_decimal_len(n / 10);
    }
}

/// `n` right-aligned in a column of the given width: padded with spaces
/// on the left, or unpadded if its digits already fill the column.
pub open spec fn spec_padded(n: nat, width: nat) -> Seq<char> {
    let d = spec_decimal(n);
    if d.len() >= width {
        d
    } else {
        spec_spaces((width - d.len()) as nat) + d
    }
}

/// The decimal digit characters, as one-character strings.
fn digit_str(d: usize) -> (r: &'static str)
    requires
        d < 10,
    ensures
        r@ == seq![digit_char(d as nat)],
{
    proof {
        reveal_strlit("0");
        reveal_strlit("1");
        reveal_strlit("2");
        reveal_strlit("3");
        reveal_strlit("4");
        reveal_strlit("5");
        reveal_strlit("6");
        reveal_strlit("7");
        reveal_strlit("8");
        reveal_strlit("9");
    }
    let r = if d == 0 {
        "0"
    } else if d == 1 {
        "1"
    } else if d == 2 {
        "2"
    } else if d == 3 {
        "3"
    } else if d == 4 {
        "4"
    } else if d == 5 {
        "5"
    } else if d == 6 {
        "6"
    } else if d == 7 {
        "7"
    } else if d == 8 {
        "8"
    } else {
        "9"
    };
    proof {
        assert(r@ =~= seq![digit_char(d as nat)]);
    }
    r
}

/// Append the decimal rendering of `n`.
fn push_decimal(s: &mut String, n: usize)
    ensures
        final(s)@ == old(s)@ + spec_decimal(n as nat),
    decreases n,
{
    if n >= 10 {
        push_decimal(s, n / 10);
    }
    s.append(digit_str(n % 10));
    proof {
        if n >= 10 {
            assert(old(s)@ + spec_decimal((n / 10) as nat) + seq![digit_char((n % 10) as nat)]
                =~= old(s)@ + spec_decimal(n as nat));
        } else {
            assert(old(s)@ + seq![digit_char(n as nat)] =~= old(s)@ + spec_decimal(n as nat));
        }
    }
}

/// Append `k` spaces.
fn push_spaces(s: &mut String, k: usize)
    ensures
        final(s)@ == old(s)@ + spec_spaces(k as nat),
{
    proof {
        reveal_strlit(" ");
        assert(old(s)@ + spec_spaces(0) =~= old(s)@);
    }
    let mut i: usize = 0;
    while i < k
        invariant
            i <= k,
            s@ == old(s)@ + spec_spaces(i as nat),
        decreases k - i,
    {
        s.append(" ");
        i = i + 1;
        proof {
            reveal_strlit(" ");
            assert(old(s)@ + spec_spaces((i - 1) as nat) + " "@ =~= old(s)@ + spec_spaces(
                i as nat,
            ));
        }
    }
}

/// Append `n` right-aligned in a column of the given width.
fn push_padded(s: &mut String, n: usize, width: usize)
    ensures
        final(s)@ == old(s)@ + spec_padded(n as nat, width as nat),
{
    let d = digits(n);
    proof {
        lemma_decimal_len(n as nat);
    }
    if d < width {
        push_spaces(s, width - d);
    }
    push_decimal(s, n);
    proof {
        if d < width {
            assert(old(s)@ + spec_spaces((width - d) as nat) + spec_decimal(n as nat) =~= old(s)@
                + spec_padded(n as nat, width as nat));
        }
    }
}

/// The cells of one row: each selected metric, in the fixed order,
/// right-aligned in its column.
pub open spec fn spec_counts_cells(cfg: CountsConfig, w: WidthsModel, c: CountsModel) -> Seq<
    char,
> {
    (if cfg.lines {
        spec_padded(c.lines, w.lines)
    } else {
        Seq::empty()
    }) + (if cfg.words {
        spec_padded(c.words, w.words)
    } else {
        Seq::empty()
    }) + (if cfg.bytes {
        spec_padded(c.bytes, w.bytes)
    } else {
        Seq::empty()
    }) + (if cfg.chars {
        spec_padded(c.chars, w.chars)
    } else {
        Seq::empty()
    }) + (if cfg.max_line_length {
        spec_padded(c.max_line_length, w.max_line_length)
    } else {
        Seq::empty()
    })
}

/// The rendering of a source's label: a file path or the stdin dash with
/// one leading space, the total label likewise, the blank label as
/// nothing.
pub open spec fn spec_label(name: CountsName) -> Seq<char> {
    match name {
        CountsName::File(p) => " "@ + p@,
        CountsName::StdIn => " -"@,
        CountsName::Blank => Seq::empty(),
        CountsName::Total => " total"@,
    }
}

/// One full output row: the selected cells, the label, a line break.
pub open spec fn spec_row(cfg: CountsConfig, w: WidthsModel, name: CountsName, c: CountsModel)
    -> Seq<char> {
    spec_counts_cells(cfg, w, c) + spec_label(name) + "\n"@
}

/// Renders metric rows aligned to one set of column widths.
pub struct Printer {
    pub widths: ColumnWidths,
    pub display: CountsConfig,
}

impl Printer {
    /// Render the selected metrics of one result, right-aligned in their
    /// columns, in the fixed order.
    pub fn print_counts(&self, counts: &FileCounts) -> (r: String)
        ensures
            r@ == spec_counts_cells(self.display, self.widths@, counts@),
    {
        let mut s = String::new();
        if self.display.lines {
            push_padded(&mut s, counts.lines, self.widths.lines);
        }
        if self.display.words {
            push_padded(&mut s, counts.words, self.widths.words);
        }
        if self.display.bytes {
            push_padded(&mut s, counts.bytes, self.widths.bytes);
        }
        if self.display.chars {
            push_padded(&mut s, counts.chars, self.widths.chars);
        }
        if self.display.max_line_length {
            push_padded(&mut s, counts.max_line_length, self.widths.max_line_length);
        }
        proof {
            assert(s@ =~= spec_counts_cells(self.display, self.widths@, counts@));
        }
        s
    }

    /// Render a source's label.
    pub fn print_file(&self, file: &CountsName) -> (r: String)
        ensures
            r@ == spec_label(*file),
    {
        match file {
            CountsName::File(p) => {
                let mut s = String::from_str(" ");
                s.append(p.as_str());
                s
            },
            CountsName::StdIn => String::from_str(" -"),
            CountsName::Blank => String::new(),
            CountsName::Total => String::from_str(" total"),
        }
    }

    /// Render one result's full output row.
    pub fn print_result(&self, file: &CountsName, counts: &FileCounts) -> (r: String)
        ensures
            r@ == spec_row(self.display, self.widths@, *file, counts@),
    {
        let mut s = self.print_counts(counts);
        let label = self.print_file(file);
        s.append(label.as_str());
        s.append("\n");
        s
    }
}

/// The label a result is printed with: a stdin result loses its marker
/// when fewer than two sources were requested, every other label stands.
pub open spec fn effective_name(name: CountsName, input_count: int) -> CountsName {
    if name is StdIn && input_count < 2 {
        CountsName::Blank
    } else {
        name
    }
}

/// The output rows of a run: one row per successful result, in arrival
/// order, all aligned to one set of widths; failed sources leave no row.
pub open spec fn spec_output_rows(
    cfg: CountsConfig,
    w: WidthsModel,
    results: Seq<Result<CountedInput, Error>>,
    input_count: int,
) -> Seq<char>
    decreases results.len(),
{
    if results.len() == 0 {
        Seq::empty()
    } else {
        spec_output_rows(cfg, w, results.drop_last(), input_count) + match results.last() {
            Ok(ci) => spec_row(cfg, w, effective_name(ci.0, input_count), ci.1@),
            Err(_) => Seq::<char>::empty(),
        }
    }
}

/// The error lines of a run, one per failed source, in arrival order.
pub open spec fn spec_error_lines(results: Seq<Result<CountedInput, Error>>) -> Seq<char>
    decreases results.len(),
{
    if results.len() == 0 {
        Seq::empty()
    } else {
        spec_error_lines(results.drop_last()) + match results.last() {
            Ok(_) => Seq::<char>::empty(),
            Err(e) => spec_message(e) + "\n"@,
        }
    }
}

/// Whether any source failed.
pub open spec fn has_error(results: Seq<Result<CountedInput, Error>>) -> bool {
    exists|t: int| 0 <= t < results.len() && results[t] is Err
}

/// Everything one run writes: the result rows, the error lines, and
/// whether the run must report failure.
pub struct RunOutput {
    pub output: String,
    pub errors: String,
    pub any_errors: bool,
}

/// Render a whole run. Every successful result becomes a row aligned to
/// the counter's widths; a lone stdin result is printed with the blank
/// label; the total row appears exactly when more than one source was
/// requested, aligned to the widths widened by its own values so it is
/// never narrower than any row above it. Failed sources become error
/// lines instead and make the run report failure, without suppressing any
/// row.
pub fn render_run(counter: &Counter, display: CountsConfig, input_count: usize) -> (r: RunOutput)
    ensures
        r.output@ == spec_output_rows(
            display,
            counter.widths@,
            counter.file_counts@,
            input_count as int,
        ) + if input_count > 1 {
            spec_row(
                display,
                widths_max(counter.widths@, widths_for(counter.totals@)),
                CountsName::Total,
                counter.totals@,
            )
        } else {
            Seq::<char>::empty()
        },
        r.errors@ == spec_error_lines(counter.file_counts@),
        r.any_errors == has_error(counter.file_counts@),
{
    let printer = Printer { widths: counter.widths, display };
    let mut output = String::new();
    let mut errors = String::new();
    let mut any_errors = false;
    let n = counter.file_counts.len();
    let mut i: usize = 0;
    proof {
        assert(counter.file_counts@.take(0) =~= Seq::<Result<CountedInput, Error>>::empty());
    }
    while i < n
        invariant
            i <= n,
            n == counter.file_counts@.len(),
            printer.widths == counter.widths,
            printer.display == display,
            output@ == spec_output_rows(
                display,
                counter.widths@,
                counter.file_counts@.take(i as int),
                input_count as int,
            ),
            errors@ == spec_error_lines(counter.file_counts@.take(i as int)),
            any_errors == has_error(counter.file_counts@.take(i as int)),
        decreases n - i,
    {
        let ghost prefix = counter.file_counts@.take(i as int);
        proof {
            assert(counter.file_counts@.take(i + 1).drop_last() =~= prefix);
            assert(counter.file_counts@.take(i + 1).last() == counter.file_counts@[i as int]);
        }
        match &counter.file_counts[i] {
            Ok(ci) => {
                let is_plain_stdin = match &ci.0 {
                    CountsName::StdIn => input_count < 2,
                    _ => false,
                };
                let row = if is_plain_stdin {
                    printer.print_result(&CountsName::Blank, &ci.1)
                } else {
                    printer.print_result(&ci.0, &ci.1)
                };
                output.append(row.as_str());
                proof {
                    assert(has_error(counter.file_counts@.take(i + 1)) == has_error(prefix)) by {
                        if has_error(prefix) {
                            let t = choose|t: int|
                                0 <= t < prefix.len() && #[trigger] (prefix[t]) is Err;
                            assert(counter.file_counts@.take(i + 1)[t] is Err);
                        }
                        if has_error(counter.file_counts@.take(i + 1)) {
                            let t = choose|t: int|
                                0 <= t < i + 1 && #[trigger] (counter.file_counts@.take(i + 1)[t])
                                    is Err;
                            assert(t < i);
                            assert(prefix[t] is Err);
                        }
                    }
                }
            },
            Err(e) => {
                let line = e.message();
                errors.append(line.as_str());
                errors.append("\n");
                any_errors = true;
                proof {
                    assert(counter.file_counts@.take(i + 1)[i as int] is Err);
                    assert(has_error(counter.file_counts@.take(i + 1)));
                }
            },
        }
        i = i + 1;
    }
    proof {
        assert(counter.file_counts@.take(n as int) =~= counter.file_counts@);
    }
    if input_count > 1 {
        let total_printer = Printer {
            widths: counter.widths.max(ColumnWidths::from_counts(&counter.totals)),
            display,
        };
        let row = total_printer.print_result(&CountsName::Total, &counter.totals);
        output.append(row.as_str());
    }
    RunOutput { output, errors, any_errors }
}

} // verus!
