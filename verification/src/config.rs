//! Which metric columns a run prints, in the fixed order lines, words,
//! bytes, chars, max line width.

use vstd::prelude::*;

verus! {

/// The set of metric columns to print.
#[derive(Clone, Copy, Debug, PartialEq, Eq, Structural)]
pub struct CountsConfig {
    pub lines: bool,
    pub words: bool,
    pub bytes: bool,
    pub chars: bool,
    pub max_line_length: bool,
}

impl CountsConfig {
    /// No columns selected.
    pub fn new() -> (r: Self)
        ensures
            !r.lines && !r.words && !r.bytes && !r.chars && !r.max_line_length,
    {
        CountsConfig { lines: false, words: false, bytes: false, chars: false,
            max_line_length: false }
    }

    /// The column set the requested flags ask for. Requesting any flag
    /// selects exactly the flags given; requesting none selects the
    /// default set of lines, words and bytes.
    pub fn from_flags(lines: bool, words: bool, bytes: bool, chars: bool, max_line_length: bool)
        -> (r: Self)
        ensures
            (lines || words || bytes || chars || max_line_length) ==> r == (CountsConfig {
                lines,
                words,
                bytes,
                chars,
                max_line_length,
            }),
            !(lines || words || bytes || chars || max_line_length) ==> r == (CountsConfig {
                lines: true,
                words: true,
                bytes: true,
                chars: false,
                max_line_length: false,
            }),
    {
        if lines || words || bytes || chars || max_line_length {
            CountsConfig { lines, words, bytes, chars, max_line_length }
        } else {
            CountsConfig::default()
        }
    }
}

impl Default for CountsConfig {
    /// The default column set: lines, words and bytes.
    fn default() -> (r: Self)
        ensures
            r.lines && r.words && r.bytes && !r.chars && !r.max_line_length,
    {
        CountsConfig { lines: true, words: true, bytes: true, chars: false,
            max_line_length: false }
    }
}

} // verus!
