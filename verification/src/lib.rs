//! A letter-constraint word filter: given a positional pattern, a set of
//! letters that must appear somewhere in the word, and a set of letters that
//! must not appear at all, select every word of a corpus that satisfies all
//! three constraints at once.
//!
//! Words and patterns are byte strings; matching is case-insensitive over
//! ASCII, and every comparison is made after lower-case canonicalization.

use vstd::prelude::*;

pub mod auth;
pub mod engine;
pub mod request;

verus! {

/// The byte that stands for "any letter accepted here" in a positional
/// pattern (ASCII `?`).
pub const WILDCARD: u8 = 63;

/// Lower-case canonicalization of a single ASCII byte: an upper-case letter
/// is mapped to its lower-case counterpart, every other byte is unchanged.
pub open spec fn lower_byte(b: u8) -> u8 {
    if 65 <= b && b <= 90 {
        (b + 32) as u8
    } else {
        b
    }
}

/// Whether a byte is a lower-case ASCII letter.
pub open spec fn is_lower_letter(b: u8) -> bool {
    97 <= b && b <= 122
}

/// Lower-case canonicalization of a whole byte string.
pub open spec fn lower_seq(s: Seq<u8>) -> Seq<u8> {
    s.map_values(|b: u8| lower_byte(b))
}

/// Executable lower-case canonicalization of one byte.
pub fn byte_to_lower(b: u8) -> (r: u8)
    ensures
        r == lower_byte(b),
{
    if 65 <= b && b <= 90 {
        b + 32
    } else {
        b
    }
}

/// Executable lower-case canonicalization of a whole word.
pub fn word_to_lower(w: &Vec<u8>) -> (r: Vec<u8>)
    ensures
        r@ == lower_seq(w@),
{
    let mut out: Vec<u8> = Vec::new();
    let mut i: usize = 0;
    while i < w.len()
        invariant
            i <= w@.len(),
            out@ =~= lower_seq(w@).subrange(0, i as int),
        decreases w@.len() - i,
    {
        out.push(byte_to_lower(w[i]));
        assert(out@ =~= lower_seq(w@).subrange(0, i + 1));
        i = i + 1;
    }
    assert(lower_seq(w@).subrange(0, w@.len() as int) =~= lower_seq(w@));
    out
}

/// Whether the byte `c` occurs anywhere in `w`.
pub fn word_contains(w: &Vec<u8>, c: u8) -> (r: bool)
    ensures
        r == w@.contains(c),
{
    let mut i: usize = 0;
    while i < w.len()
        invariant
            i <= w@.len(),
            forall|k: int| 0 <= k < i ==> #[trigger] w@[k] != c,
        decreases w@.len() - i,
    {
        if w[i] == c {
            assert(w@[i as int] == c);
            return true;
        }
        i = i + 1;
    }
    false
}

/// A fresh copy of a word.
pub fn copy_word(w: &Vec<u8>) -> (r: Vec<u8>)
    ensures
        r@ == w@,
{
    let mut out: Vec<u8> = Vec::new();
    let mut i: usize = 0;
    while i < w.len()
        invariant
            i <= w@.len(),
            out@ =~= w@.subrange(0, i as int),
        decreases w@.len() - i,
    {
        out.push(w[i]);
        i = i + 1;
    }
    assert(w@.subrange(0, w@.len() as int) =~= w@);
    out
}

} // verus!
