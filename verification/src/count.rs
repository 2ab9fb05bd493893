//! The metric counter: one pass over a byte stream, split into chunks at
//! newline bytes, accumulating the five per-source metrics.

use vstd::prelude::*;
use vstd::utf8::{decode_utf8, valid_utf8};
use crate::unicode::{as_utf8, display_width, lemma_decode_len_le, text_width};
use crate::widths::nat_max;

verus! {

/// The byte that ends a chunk.
pub const NEWLINE: u8 = 0x0a;

/// Whitespace for word counting: space, tab, newline, carriage return,
/// form feed and vertical tab.
pub open spec fn is_space(b: u8) -> bool {
    b == 0x20 || b == 0x09 || b == 0x0a || b == 0x0d || b == 0x0c || b == 0x0b
}

/// Number of maximal runs of non-whitespace bytes in `s`, given whether
/// the byte just before `s` was whitespace (or `s` starts the stream).
pub open spec fn word_count_from(s: Seq<u8>, prev_space: bool) -> nat
    decreases s.len(),
{
    if s.len() == 0 {
        0
    } else {
        (if prev_space && !is_space(s[0]) {
            1nat
        } else {
            0nat
        }) + word_count_from(s.skip(1), is_space(s[0]))
    }
}

/// Number of maximal runs of non-whitespace bytes in `s`.
pub open spec fn word_count(s: Seq<u8>) -> nat {
    word_count_from(s, true)
}

/// Length of the first chunk of `s`: everything up to and including the
/// first newline byte, or all of `s` if it has none.
pub open spec fn chunk_len(s: Seq<u8>) -> nat
    decreases s.len(),
{
    if s.len() == 0 {
        0
    } else if s[0] == NEWLINE {
        1
    } else {
        1 + chunk_len(s.skip(1))
    }
}

pub proof fn lemma_chunk_len_bounds(s: Seq<u8>)
    requires
        s.len() > 0,
    ensures
        1 <= chunk_len(s) <= s.len(),
    decreases s.len(),
{
    if s[0] != NEWLINE {
        if s.len() > 1 {
            lemma_chunk_len_bounds(s.skip(1));
        } else {
            assert(chunk_len(s.skip(1)) == 0);
        }
    }
}

/// The first chunk ends at the first newline: if the first `m` bytes are
/// not newlines and byte `m` is one (or `s` ends there), the chunk is the
/// first `m` bytes plus the newline, if any.
pub proof fn lemma_chunk_len_at(s: Seq<u8>, m: int)
    requires
        0 <= m <= s.len(),
        forall|k: int| 0 <= k < m ==> s[k] != NEWLINE,
        m == s.len() || s[m] == NEWLINE,
    ensures
        chunk_len(s) == if m == s.len() {
            m
        } else {
            m + 1
        },
    decreases m,
{
    if s.len() == 0 {
    } else if m == 0 {
    } else {
        lemma_chunk_len_at(s.skip(1), m - 1);
    }
}

/// The chunk with at most one trailing newline removed.
pub open spec fn strip_newline(s: Seq<u8>) -> Seq<u8> {
    if s.len() > 0 && s[s.len() - 1] == NEWLINE {
        s.drop_last()
    } else {
        s
    }
}

/// Characters contributed by one chunk: its UTF-8 decoding if valid,
/// otherwise nothing.
pub open spec fn chunk_chars(s: Seq<u8>) -> nat {
    if valid_utf8(s) {
        decode_utf8(s).len()
    } else {
        0
    }
}

/// Display width contributed by one chunk: the width of its decoded text
/// with the trailing newline stripped, or zero if it is not valid UTF-8.
pub open spec fn chunk_width(s: Seq<u8>) -> nat {
    if valid_utf8(strip_newline(s)) {
        display_width(decode_utf8(strip_newline(s)))
    } else {
        0
    }
}

/// Mathematical view of the five metrics of one source.
pub ghost struct CountsModel {
    pub lines: nat,
    pub words: nat,
    pub bytes: nat,
    pub chars: nat,
    pub max_line_length: nat,
}

/// All five metrics at zero.
pub open spec fn zero_counts() -> CountsModel {
    CountsModel { lines: 0, words: 0, bytes: 0, chars: 0, max_line_length: 0 }
}

/// Merge the metrics of two streams: lines, words, bytes and characters
/// add; the maximum line width is a maximum, never a sum.
pub open spec fn combine_counts(a: CountsModel, b: CountsModel) -> CountsModel {
    CountsModel {
        lines: a.lines + b.lines,
        words: a.words + b.words,
        bytes: a.bytes + b.bytes,
        chars: a.chars + b.chars,
        max_line_length: nat_max(a.max_line_length, b.max_line_length),
    }
}

/// The metrics after one more chunk has been read.
pub open spec fn chunk_step(acc: CountsModel, chunk: Seq<u8>) -> CountsModel {
    CountsModel {
        lines: acc.lines + 1,
        words: acc.words + word_count(chunk),
        bytes: acc.bytes + chunk.len(),
        chars: acc.chars + chunk_chars(chunk),
        max_line_length: nat_max(acc.max_line_length, chunk_width(chunk)),
    }
}

/// The metrics after all of `data`, chunk by chunk, starting from `acc`.
pub open spec fn stream_counts_from(acc: CountsModel, data: Seq<u8>) -> CountsModel
    decreases data.len(),
    via stream_counts_from_decreases
{
    if data.len() == 0 {
        acc
    } else {
        let l = chunk_len(data) as int;
        stream_counts_from(chunk_step(acc, data.take(l)), data.skip(l))
    }
}

#[via_fn]
proof fn stream_counts_from_decreases(acc: CountsModel, data: Seq<u8>) {
    if data.len() > 0 {
        lemma_chunk_len_bounds(data);
    }
}

/// The metrics of a whole byte stream.
pub open spec fn stream_counts(data: Seq<u8>) -> CountsModel {
    stream_counts_from(zero_counts(), data)
}

/// The five metrics counted for one source.
#[derive(Clone, Copy, Debug, PartialEq, Eq, Structural)]
pub struct FileCounts {
    pub lines: usize,
    pub words: usize,
    pub bytes: usize,
    pub chars: usize,
    pub max_line_length: usize,
}

impl View for FileCounts {
    type V = CountsModel;

    open spec fn view(&self) -> CountsModel {
        CountsModel {
            lines: self.lines as nat,
            words: self.words as nat,
            bytes: self.bytes as nat,
            chars: self.chars as nat,
            max_line_length: self.max_line_length as nat,
        }
    }
}

impl FileCounts {
    /// Lines, words and characters never outnumber the bytes they came
    /// from.
    pub open spec fn wf(self) -> bool {
        self.lines <= self.bytes && self.words <= self.bytes && self.chars <= self.bytes
    }

    /// All five metrics at zero.
    pub fn new() -> (r: Self)
        ensures
            r@ == zero_counts(),
            r.wf(),
    {
        FileCounts { lines: 0, words: 0, bytes: 0, chars: 0, max_line_length: 0 }
    }
}

impl Default for FileCounts {
    fn default() -> (r: Self)
        ensures
            r@ == zero_counts(),
            r.wf(),
    {
        FileCounts::new()
    }
}

/// A stream has at most one word per byte.
pub proof fn lemma_word_count_le_len(s: Seq<u8>, prev_space: bool)
    ensures
        word_count_from(s, prev_space) <= s.len(),
    decreases s.len(),
{
    if s.len() > 0 {
        lemma_word_count_le_len(s.skip(1), is_space(s[0]));
    }
}

/// Whether one byte is whitespace for word counting.
fn is_space_byte(b: u8) -> (r: bool)
    ensures
        r == is_space(b),
{
    b == 0x20 || b == 0x09 || b == 0x0a || b == 0x0d || b == 0x0c || b == 0x0b
}

/// Count the maximal runs of non-whitespace bytes in one chunk.
fn count_words(chunk: &[u8]) -> (r: usize)
    ensures
        r == word_count(chunk@),
{
    let n = chunk.len();
    let mut r: usize = 0;
    let mut prev_space = true;
    let mut i: usize = 0;
    proof {
        lemma_word_count_le_len(chunk@, true);
        assert(chunk@.skip(0) =~= chunk@);
    }
    while i < n
        invariant
            i <= n,
            n == chunk@.len(),
            r <= i,
            word_count(chunk@) == r + word_count_from(chunk@.skip(i as int), prev_space),
        decreases n - i,
    {
        let b = chunk[i];
        let sp = is_space_byte(b);
        proof {
            assert(chunk@.skip(i as int)[0] == b);
            assert(chunk@.skip(i as int).skip(1) =~= chunk@.skip(i + 1));
            lemma_word_count_le_len(chunk@.skip(i + 1), sp);
        }
        if prev_space && !sp {
            r = r + 1;
        }
        prev_space = sp;
        i = i + 1;
    }
    r
}

impl FileCounts {
    /// Account for one chunk, as delivered by a read that stops after a
    /// newline byte: one more line, plus the chunk's bytes, words,
    /// characters and display width.
    pub fn count_chunk(&mut self, chunk: &[u8])
        requires
            chunk@.len() > 0,
            old(self)@.bytes + chunk@.len() <= usize::MAX,
            old(self).wf(),
        ensures
            final(self)@ == chunk_step(old(self)@, chunk@),
            final(self).wf(),
    {
        let n = chunk.len();
        proof {
            lemma_word_count_le_len(chunk@, true);
        }
        self.bytes = self.bytes + n;
        self.lines = self.lines + 1;
        let w = count_words(chunk);
        self.words = self.words + w;
        match as_utf8(chunk) {
            Some(s) => {
                proof {
                    lemma_decode_len_le(chunk@);
                }
                let c = s.unicode_len();
                self.chars = self.chars + c;
            },
            None => {},
        }
        let trimmed: &[u8] = if chunk[n - 1] == NEWLINE {
            proof {
                assert(chunk@.subrange(0, n - 1) =~= strip_newline(chunk@));
            }
            &chunk[0..n - 1]
        } else {
            proof {
                assert(chunk@ =~= strip_newline(chunk@));
            }
            chunk
        };
        let w2 = match as_utf8(trimmed) {
            Some(s) => text_width(s),
            None => 0,
        };
        if w2 > self.max_line_length {
            self.max_line_length = w2;
        }
    }

    /// Count a whole stream of bytes, chunk by chunk.
    pub fn from_reader(content: &[u8]) -> (r: FileCounts)
        ensures
            r@ == stream_counts(content@),
            r.wf(),
            r.bytes == content@.len(),
    {
        let n = content.len();
        let mut counts = FileCounts::new();
        let mut i: usize = 0;
        proof {
            assert(content@.skip(0) =~= content@);
        }
        while i < n
            invariant
                i <= n,
                n == content@.len(),
                counts.wf(),
                counts.bytes == i,
                stream_counts_from(counts@, content@.skip(i as int)) == stream_counts(content@),
            decreases n - i,
        {
            let ghost rest = content@.skip(i as int);
            let mut j: usize = i;
            while j < n && content[j] != NEWLINE
                invariant
                    i <= j <= n,
                    n == content@.len(),
                    forall|k: int| i <= k < j ==> content@[k] != NEWLINE,
                decreases n - j,
            {
                j = j + 1;
            }
            let end = if j < n {
                j + 1
            } else {
                n
            };
            proof {
                assert(forall|k: int| 0 <= k < j - i ==> rest[k] == content@[i + k]);
                lemma_chunk_len_at(rest, j - i);
                assert(chunk_len(rest) == end - i);
                assert(rest.take(end - i) =~= content@.subrange(i as int, end as int));
                assert(rest.skip(end - i) =~= content@.skip(end as int));
            }
            let chunk = &content[i..end];
            counts.count_chunk(chunk);
            i = end;
        }
        proof {
            assert(content@.skip(n as int) =~= Seq::<u8>::empty());
        }
        counts
    }

    /// Fold another source's metrics into these: lines, words, bytes and
    /// characters add; the maximum line width is a maximum, never a sum.
    pub fn add_assign(&mut self, rhs: &FileCounts)
        requires
            old(self)@.bytes + rhs@.bytes <= usize::MAX,
            old(self).wf(),
            rhs.wf(),
        ensures
            final(self)@ == combine_counts(old(self)@, rhs@),
            final(self).wf(),
    {
        self.lines = self.lines + rhs.lines;
        self.words = self.words + rhs.words;
        self.bytes = self.bytes + rhs.bytes;
        self.chars = self.chars + rhs.chars;
        if rhs.max_line_length > self.max_line_length {
            self.max_line_length = rhs.max_line_length;
        }
    }
}

} // verus!
