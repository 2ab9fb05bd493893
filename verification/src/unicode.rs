//! Text facts the counter needs about a chunk of bytes: whether it is
//! valid UTF-8, how many characters it decodes to, and its display width.
//!
//! UTF-8 validity and decoding are specified by `vstd::utf8`; only the
//! calls into `core::str::from_utf8` and `unicode_width` are trusted.

use vstd::prelude::*;
use vstd::utf8::{decode_utf8, valid_utf8, length_of_first_scalar, pop_first_scalar,
    valid_first_scalar};

verus! {

/// The terminal display width of a sequence of characters, as computed by
/// the `unicode_width` crate. The width is a function of the characters
/// alone; its exact value (wide, zero-width and combining forms) is not
/// modelled here.
pub uninterp spec fn display_width(s: Seq<char>) -> nat;

/// Relies on `core::str::from_utf8`: it returns `Ok` exactly when the
/// bytes are valid UTF-8, and the returned string views those same bytes,
/// so its characters are their UTF-8 decoding.
#[verifier::external_body]
pub(crate) fn as_utf8(bytes: &[u8]) -> (r: Option<&str>)
    ensures
        match r {
            Some(s) => valid_utf8(bytes@) && s@ == decode_utf8(bytes@),
            None => !valid_utf8(bytes@),
        },
{
    core::str::from_utf8(bytes).ok()
}

/// Relies on `unicode_width::UnicodeWidthStr::width`: the displayed width
/// in columns of a string, determined by its characters alone; the empty
/// string has width zero.
#[verifier::external_body]
pub(crate) fn text_width(s: &str) -> (r: usize)
    ensures
        r as nat == display_width(s@),
        s@.len() == 0 ==> r == 0,
{
    unicode_width::UnicodeWidthStr::width(s)
}

/// A UTF-8 encoding never decodes to more characters than it has bytes.
pub proof fn lemma_decode_len_le(bytes: Seq<u8>)
    requires
        valid_utf8(bytes),
    ensures
        decode_utf8(bytes).len() <= bytes.len(),
    decreases bytes.len(),
{
    if bytes.len() > 0 {
        assert(valid_first_scalar(bytes));
        assert(1 <= length_of_first_scalar(bytes) <= bytes.len());
        lemma_decode_len_le(pop_first_scalar(bytes));
    }
}

} // verus!
