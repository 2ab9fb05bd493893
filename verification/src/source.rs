//! Sources to count: a named file or standard input, and the parsing of
//! source lists, including the NUL-delimited list form.

use vstd::prelude::*;
use vstd::string::StrSliceExecFns;
use vstd::utf8::{decode_utf8, valid_utf8};
use crate::unicode::as_utf8;

verus! {

/// A place to read bytes from: a named file or standard input.
#[derive(Debug)]
pub enum Input {
    File(String),
    StdIn,
}

/// `r` is the source that the argument text `s` designates: standard
/// input for the lone dash, otherwise the file with that path.
pub open spec fn input_matches(r: Input, s: Seq<char>) -> bool {
    if s == seq!['-'] {
        r is StdIn
    } else {
        r matches Input::File(p) && p@ == s
    }
}

/// Turn one argument into a source: `-` means standard input, anything
/// else is a file path.
pub fn parse_input(s: &str) -> (r: Input)
    ensures
        input_matches(r, s@),
{
    if s.unicode_len() == 1 && s.get_char(0) == '-' {
        proof {
            assert(s@ =~= seq!['-']);
        }
        Input::StdIn
    } else {
        proof {
            assert(s@ != seq!['-']) by {
                if s@ == seq!['-'] {
                    assert(s@.len() == 1 && s@[0] == '-');
                }
            }
        }
        Input::File(s.to_owned())
    }
}

/// Length of the first NUL-delimited segment of `s`: the bytes before
/// the first NUL byte, or all of `s` if it has none.
pub open spec fn seg_len(s: Seq<u8>) -> nat
    decreases s.len(),
{
    if s.len() == 0 {
        0
    } else if s[0] == 0u8 {
        0
    } else {
        1 + seg_len(s.skip(1))
    }
}

pub proof fn lemma_seg_len_bounds(s: Seq<u8>)
    ensures
        seg_len(s) <= s.len(),
    decreases s.len(),
{
    if s.len() > 0 && s[0] != 0u8 {
        lemma_seg_len_bounds(s.skip(1));
    }
}

/// The first segment ends at the first NUL: if the first `m` bytes are
/// not NUL and byte `m` is one (or `s` ends there), the segment is the
/// first `m` bytes.
pub proof fn lemma_seg_len_at(s: Seq<u8>, m: int)
    requires
        0 <= m <= s.len(),
        forall|k: int| 0 <= k < m ==> s[k] != 0u8,
        m == s.len() || s[m] == 0u8,
    ensures
        seg_len(s) == m,
    decreases m,
{
    if s.len() == 0 {
    } else if m == 0 {
    } else {
        lemma_seg_len_at(s.skip(1), m - 1);
    }
}

/// The NUL-delimited segments of `s`: split at each NUL byte, the NUL
/// itself belonging to no segment. A final NUL ends the last segment
/// rather than opening an empty one.
pub open spec fn nul_segments(s: Seq<u8>) -> Seq<Seq<u8>>
    decreases s.len(),
    via nul_segments_decreases
{
    if s.len() == 0 {
        Seq::empty()
    } else {
        let l = seg_len(s) as int;
        let next = if l + 1 <= s.len() {
            l + 1
        } else {
            l
        };
        seq![s.take(l)] + nul_segments(s.skip(next))
    }
}

#[via_fn]
proof fn nul_segments_decreases(s: Seq<u8>) {
    if s.len() > 0 {
        lemma_seg_len_bounds(s);
    }
}

/// Parse a NUL-delimited list of sources, as read from a `--files0-from`
/// file. Every segment must be valid UTF-8; one that is not makes the
/// whole list unusable, which is the only fatal failure.
pub fn parse_files0_list(data: &[u8]) -> (r: Option<Vec<Input>>)
    ensures
        match r {
            Some(v) => {
                &&& v@.len() == nul_segments(data@).len()
                &&& forall|t: int|
                    0 <= t < v@.len() ==> valid_utf8(#[trigger] nul_segments(data@)[t])
                        && input_matches(v@[t], decode_utf8(nul_segments(data@)[t]))
            },
            None => exists|t: int|
                0 <= t < nul_segments(data@).len() && !valid_utf8(#[trigger] nul_segments(data@)[t]),
        },
{
    let ghost segs = nul_segments(data@);
    let n = data.len();
    let mut v: Vec<Input> = Vec::new();
    let mut i: usize = 0;
    proof {
        assert(data@.skip(0) =~= data@);
    }
    while i < n
        invariant
            i <= n,
            n == data@.len(),
            segs == nul_segments(data@),
            segs.skip(v@.len() as int) == nul_segments(data@.skip(i as int)),
            v@.len() <= segs.len(),
            forall|t: int|
                0 <= t < v@.len() ==> valid_utf8(#[trigger] segs[t]) && input_matches(
                    v@[t],
                    decode_utf8(segs[t]),
                ),
        decreases n - i,
    {
        let ghost rest = data@.skip(i as int);
        let ghost k = v@.len() as int;
        let mut j: usize = i;
        while j < n && data[j] != 0u8
            invariant
                i <= j <= n,
                n == data@.len(),
                forall|k2: int| i <= k2 < j ==> data@[k2] != 0u8,
            decreases n - j,
        {
            j = j + 1;
        }
        proof {
            assert(forall|k2: int| 0 <= k2 < j - i ==> rest[k2] == data@[i + k2]);
            lemma_seg_len_at(rest, j - i);
            let l = seg_len(rest) as int;
            let next = if l + 1 <= rest.len() {
                l + 1
            } else {
                l
            };
            assert(rest.take(l) =~= data@.subrange(i as int, j as int));
            let next_i: int = if j < n {
                j + 1
            } else {
                n as int
            };
            assert(rest.skip(next) =~= data@.skip(next_i));
            assert(nul_segments(rest)[0] == rest.take(l));
            assert(nul_segments(rest).len() >= 1);
            assert(k < segs.len());
            assert(segs.skip(k)[0] == segs[k]);
            assert(segs.skip(k).skip(1) =~= segs.skip(k + 1));
            assert(nul_segments(rest).skip(1) =~= nul_segments(rest.skip(next)));
        }
        let seg = &data[i..j];
        match as_utf8(seg) {
            Some(s) => {
                let inp = parse_input(s);
                v.push(inp);
            },
            None => {
                proof {
                    assert(!valid_utf8(segs[k]));
                }
                return None;
            },
        }
        i = if j < n {
            j + 1
        } else {
            n
        };
    }
    proof {
        assert(data@.skip(n as int) =~= Seq::<u8>::empty());
        assert(segs.skip(v@.len() as int) =~= Seq::<Seq<u8>>::empty());
        assert(v@.len() == segs.len());
    }
    Some(v)
}

} // verus!
