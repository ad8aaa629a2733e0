//! Walking a text line by line.
//!
//! A line starts at offset zero or right after a line feed, and runs up to
//! the next line feed or the end of the text. Positions are byte offsets.

use crate::text::{bytes, clean_cut, lemma_seek, seek, slice};
use vstd::prelude::*;

verus! {

/// Offset of the line feed that ends the line starting at `pos` (the length
/// of the text if the line is the last one and is not terminated).
pub open spec fn line_end(b: Seq<u8>, pos: int) -> int {
    seek(b, '\n' as u8, pos)
}

/// The line starting at `pos`, without its line feed.
pub open spec fn line_at(b: Seq<u8>, pos: int) -> Seq<u8> {
    b.subrange(pos, line_end(b, pos))
}

/// Offset at which the line after the one starting at `pos` starts (the
/// length of the text if there is none).
pub open spec fn next_line(b: Seq<u8>, pos: int) -> int {
    let e = line_end(b, pos);
    if e < b.len() {
        e + 1
    } else {
        e
    }
}

/// Stepping to the next line moves forward and stays inside the text.
pub proof fn lemma_next_line_advances(b: Seq<u8>, pos: int)
    requires
        0 <= pos < b.len(),
    ensures
        pos <= line_end(b, pos) <= b.len(),
        pos < next_line(b, pos) <= b.len(),
        clean_cut(b, next_line(b, pos)),
{
    lemma_seek(b, '\n' as u8, pos);
}

/// Offset of the first byte `c` of `s` at or after `from`.
pub(crate) fn find_from(s: &[u8], c: u8, from: usize) -> (r: usize)
    requires
        from <= s@.len(),
    ensures
        r == seek(s@, c, from as int),
        from <= r <= s@.len(),
        r < s@.len() ==> s@[r as int] == c,
{
    let n = s.len();
    let mut i: usize = from;
    while i < n && s[i] != c
        invariant
            from <= i <= n,
            n == s@.len(),
            seek(s@, c, from as int) == seek(s@, c, i as int),
        decreases n - i,
    {
        i += 1;
    }
    i
}

/// The line of `s` that starts at `pos`, and the offset of the line after it.
pub(crate) fn cut_line<'a>(s: &'a str, pos: usize) -> (r: (&'a str, usize))
    requires
        pos < bytes(s).len(),
        clean_cut(bytes(s), pos as int),
    ensures
        bytes(r.0) == line_at(bytes(s), pos as int),
        r.1 == next_line(bytes(s), pos as int),
        pos < r.1 <= bytes(s).len(),
        clean_cut(bytes(s), r.1 as int),
{
    let b = s.as_bytes();
    let end = find_from(b, '\n' as u8, pos);
    let line = slice(s, pos, end);
    let next = if end < b.len() {
        end + 1
    } else {
        end
    };
    (line, next)
}

} // verus!
