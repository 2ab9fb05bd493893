//! Laws of the metric counter: how the metrics of a stream relate to the
//! stream's bytes, and how streams compose.

use vstd::prelude::*;
use vstd::utf8::valid_utf8;
use crate::count::{chunk_chars, chunk_len, chunk_step, combine_counts, is_space,
    lemma_chunk_len_at, lemma_chunk_len_bounds, stream_counts, stream_counts_from, word_count,
    word_count_from, zero_counts, CountsModel, NEWLINE};
use crate::unicode::lemma_decode_len_le;

verus! {

/// Merging with an empty stream's metrics changes nothing.
pub proof fn lemma_combine_zero(a: CountsModel)
    ensures
        combine_counts(zero_counts(), a) == a,
        combine_counts(a, zero_counts()) == a,
{
}

/// Merging metrics is associative.
pub proof fn lemma_combine_assoc(a: CountsModel, b: CountsModel, c: CountsModel)
    ensures
        combine_counts(combine_counts(a, b), c) == combine_counts(a, combine_counts(b, c)),
{
}

/// Counting from an accumulator is the accumulator merged with the
/// stream counted from zero.
pub proof fn lemma_stream_accumulator(acc: CountsModel, data: Seq<u8>)
    ensures
        stream_counts_from(acc, data) == combine_counts(acc, stream_counts(data)),
    decreases data.len(),
{
    if data.len() == 0 {
    } else {
        lemma_chunk_len_bounds(data);
        let l = chunk_len(data) as int;
        let c = data.take(l);
        let rest = data.skip(l);
        lemma_stream_accumulator(chunk_step(acc, c), rest);
        lemma_stream_accumulator(chunk_step(zero_counts(), c), rest);
        assert(chunk_step(acc, c) == combine_counts(acc, chunk_step(zero_counts(), c)));
        lemma_combine_assoc(acc, chunk_step(zero_counts(), c), stream_counts(rest));
    }
}

/// Every metric is non-decreasing as more input is consumed.
pub proof fn lemma_counts_monotone(acc: CountsModel, data: Seq<u8>)
    ensures
        stream_counts_from(acc, data).lines >= acc.lines,
        stream_counts_from(acc, data).words >= acc.words,
        stream_counts_from(acc, data).bytes >= acc.bytes,
        stream_counts_from(acc, data).chars >= acc.chars,
        stream_counts_from(acc, data).max_line_length >= acc.max_line_length,
{
    lemma_stream_accumulator(acc, data);
}

/// Counting the same bytes always yields the same metrics: the counter is
/// a function of the stream's content alone.
pub proof fn lemma_counting_deterministic(a: Seq<u8>, b: Seq<u8>)
    requires
        a == b,
    ensures
        stream_counts(a) == stream_counts(b),
{
}

/// An empty stream has every metric at zero.
pub proof fn lemma_empty_input(data: Seq<u8>)
    requires
        data.len() == 0,
    ensures
        stream_counts(data) == zero_counts(),
{
}

/// The byte count of a stream is exactly its length.
pub proof fn lemma_stream_bytes(data: Seq<u8>)
    ensures
        stream_counts(data).bytes == data.len(),
    decreases data.len(),
{
    if data.len() > 0 {
        lemma_chunk_len_bounds(data);
        let l = chunk_len(data) as int;
        lemma_stream_bytes(data.skip(l));
        lemma_stream_accumulator(chunk_step(zero_counts(), data.take(l)), data.skip(l));
    }
}

/// The shape of the first chunk: no newline before its last byte, and a
/// newline at its end whenever more of the stream follows.
pub proof fn lemma_chunk_shape(s: Seq<u8>)
    requires
        s.len() > 0,
    ensures
        forall|k: int| 0 <= k < chunk_len(s) - 1 ==> s[k] != NEWLINE,
        chunk_len(s) < s.len() ==> s[chunk_len(s) - 1] == NEWLINE,
    decreases s.len(),
{
    lemma_chunk_len_bounds(s);
    if s[0] != NEWLINE && s.len() > 1 {
        lemma_chunk_shape(s.skip(1));
        assert(forall|k: int| 1 <= k < chunk_len(s) - 1 ==> s[k] == s.skip(1)[k - 1]);
    }
}

/// Number of newline bytes in a stream.
pub open spec fn newline_count(s: Seq<u8>) -> nat
    decreases s.len(),
{
    if s.len() == 0 {
        0
    } else {
        (if s[0] == NEWLINE {
            1nat
        } else {
            0nat
        }) + newline_count(s.skip(1))
    }
}

proof fn lemma_newline_count_append(a: Seq<u8>, b: Seq<u8>)
    ensures
        newline_count(a + b) == newline_count(a) + newline_count(b),
    decreases a.len(),
{
    if a.len() == 0 {
        assert(a + b =~= b);
    } else {
        assert((a + b)[0] == a[0]);
        assert((a + b).skip(1) =~= a.skip(1) + b);
        lemma_newline_count_append(a.skip(1), b);
    }
}

proof fn lemma_newline_count_none(s: Seq<u8>)
    requires
        forall|k: int| 0 <= k < s.len() ==> s[k] != NEWLINE,
    ensures
        newline_count(s) == 0,
    decreases s.len(),
{
    if s.len() > 0 {
        lemma_newline_count_none(s.skip(1));
    }
}

/// The line count of a stream: one line per newline byte, plus one for a
/// final partial line when the stream does not end in a newline.
pub proof fn lemma_stream_lines(data: Seq<u8>)
    ensures
        stream_counts(data).lines == newline_count(data) + (if data.len() > 0 && data.last()
            != NEWLINE {
            1nat
        } else {
            0nat
        }),
    decreases data.len(),
{
    if data.len() > 0 {
        lemma_chunk_len_bounds(data);
        lemma_chunk_shape(data);
        let l = chunk_len(data) as int;
        let c = data.take(l);
        let rest = data.skip(l);
        lemma_stream_lines(rest);
        lemma_stream_accumulator(chunk_step(zero_counts(), c), rest);
        assert(data =~= c + rest);
        lemma_newline_count_append(c, rest);
        if c.last() == NEWLINE {
            assert(c =~= c.drop_last() + seq![NEWLINE]);
            lemma_newline_count_append(c.drop_last(), seq![NEWLINE]);
            assert(forall|k: int| 0 <= k < c.drop_last().len() ==> c.drop_last()[k] == data[k]);
            lemma_newline_count_none(c.drop_last());
            assert(newline_count(seq![NEWLINE]) == 1) by {
                assert(seq![NEWLINE].skip(1) =~= Seq::<u8>::empty());
                assert(newline_count(Seq::<u8>::empty()) == 0);
            }
            assert(newline_count(c) == 1);
        } else {
            assert(l == data.len());
            lemma_newline_count_none(c);
        }
        if rest.len() > 0 {
            assert(data.last() == rest.last());
        }
    }
}

/// Whether the byte just before the continuation of a stream is
/// whitespace, given the bytes read so far.
pub open spec fn seq_last_space(s: Seq<u8>, prev: bool) -> bool {
    if s.len() == 0 {
        prev
    } else {
        is_space(s.last())
    }
}

/// Word counting splits over concatenation, with the whitespace state
/// carried across the boundary.
pub proof fn lemma_word_count_append(a: Seq<u8>, b: Seq<u8>, prev: bool)
    ensures
        word_count_from(a + b, prev) == word_count_from(a, prev) + word_count_from(
            b,
            seq_last_space(a, prev),
        ),
    decreases a.len(),
{
    if a.len() == 0 {
        assert(a + b =~= b);
    } else {
        assert((a + b)[0] == a[0]);
        assert((a + b).skip(1) =~= a.skip(1) + b);
        lemma_word_count_append(a.skip(1), b, is_space(a[0]));
        if a.len() == 1 {
            assert(a.last() == a[0]);
        } else {
            assert(a.skip(1).last() == a.last());
        }
    }
}

/// The word count of a stream is the word count of its bytes as one
/// whole: chunking at newlines never merges or splits words, since every
/// chunk boundary is a newline, which is whitespace.
pub proof fn lemma_stream_words(data: Seq<u8>)
    ensures
        stream_counts(data).words == word_count(data),
    decreases data.len(),
{
    if data.len() > 0 {
        lemma_chunk_len_bounds(data);
        lemma_chunk_shape(data);
        let l = chunk_len(data) as int;
        let c = data.take(l);
        let rest = data.skip(l);
        lemma_stream_words(rest);
        lemma_stream_accumulator(chunk_step(zero_counts(), c), rest);
        assert(data =~= c + rest);
        lemma_word_count_append(c, rest, true);
        if rest.len() > 0 {
            assert(c.last() == data[l - 1]);
            assert(data[l - 1] == NEWLINE);
            assert(seq_last_space(c, true));
        }
    }
}

/// A stream never decodes to more characters than it has bytes: the
/// character count differs from the byte count only by the multi-byte
/// encoding overhead.
pub proof fn lemma_chars_at_most_bytes(data: Seq<u8>)
    ensures
        stream_counts(data).chars <= stream_counts(data).bytes,
    decreases data.len(),
{
    if data.len() > 0 {
        lemma_chunk_len_bounds(data);
        let l = chunk_len(data) as int;
        let c = data.take(l);
        let rest = data.skip(l);
        lemma_chars_at_most_bytes(rest);
        lemma_stream_accumulator(chunk_step(zero_counts(), c), rest);
        if valid_utf8(c) {
            lemma_decode_len_le(c);
        }
        assert(chunk_chars(c) <= c.len());
    }
}

/// Counting two streams one after the other, split at a chunk boundary,
/// merges their metrics: the four additive metrics add, and the maximum
/// line width of the whole is the maximum, never the sum, of the parts.
pub proof fn lemma_stream_concat(a: Seq<u8>, b: Seq<u8>)
    requires
        a.len() == 0 || a.last() == NEWLINE,
    ensures
        stream_counts(a + b) == combine_counts(stream_counts(a), stream_counts(b)),
    decreases a.len(),
{
    if a.len() == 0 {
        assert(a + b =~= b);
        lemma_combine_zero(stream_counts(b));
    } else {
        lemma_chunk_len_bounds(a);
        lemma_chunk_shape(a);
        let l = chunk_len(a) as int;
        let c = a.take(l);
        let rest = a.skip(l);
        assert(forall|k: int| 0 <= k < l ==> (a + b)[k] == a[k]);
        assert((a + b)[l - 1] == NEWLINE);
        lemma_chunk_len_at(a + b, l - 1);
        assert(chunk_len(a + b) == l);
        assert((a + b).take(l) =~= c);
        assert((a + b).skip(l) =~= rest + b);
        if rest.len() > 0 {
            assert(rest.last() == a.last());
        }
        lemma_stream_concat(rest, b);
        lemma_stream_accumulator(chunk_step(zero_counts(), c), rest + b);
        lemma_stream_accumulator(chunk_step(zero_counts(), c), rest);
        lemma_combine_assoc(chunk_step(zero_counts(), c), stream_counts(rest), stream_counts(b));
    }
}

} // verus!
