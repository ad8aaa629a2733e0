//! The `at <function> <citation>` lines that Rust and Node.js traces share.

use crate::text::{
    bytes, find_space, is_space, opt_bytes, pair_bytes, slice, space, trim, trim_end, trim_start,
    trimmed, trimmed_end, trimmed_start, word_end,
};
use vstd::prelude::*;

verus! {

/// What follows the word `at` on a line whose first word it is.
pub open spec fn after_at(line: Seq<u8>) -> Option<Seq<u8>> {
    let t = trimmed(line);
    if t.len() >= 3 && t[0] == 'a' as u8 && t[1] == 't' as u8 && is_space(t[2]) {
        Some(trimmed_start(t.skip(2)))
    } else {
        None
    }
}

/// Index of the first whitespace byte at or after `i` that stands right
/// before an opening parenthesis (the length if there is none).
pub open spec fn gap(s: Seq<u8>, i: int) -> int
    decreases s.len() - i,
{
    if 0 <= i < s.len() && !(is_space(s[i]) && i + 1 < s.len() && s[i + 1] == '(' as u8) {
        gap(s, i + 1)
    } else {
        i
    }
}

/// Splits `<function> (<citation>)` into its two parts: the function ends
/// at the first whitespace that stands before an opening parenthesis, and
/// the citation is what that parenthesis and the closing one at the end of
/// the text enclose.
pub open spec fn call_split(rest: Seq<u8>) -> Option<(Seq<u8>, Seq<u8>)> {
    let p = gap(rest, 0);
    if p + 2 < rest.len() && rest.last() == ')' as u8 {
        Some((trimmed_end(rest.take(p)), rest.subrange(p + 2, rest.len() - 1)))
    } else {
        None
    }
}

/// Splits `<function> <citation>` at the first run of whitespace.
pub open spec fn word_split(rest: Seq<u8>) -> Option<(Seq<u8>, Seq<u8>)> {
    let p = word_end(rest, 0);
    if 0 < p < rest.len() {
        Some((rest.take(p), trimmed_start(rest.skip(p))))
    } else {
        None
    }
}

/// What follows the word `at` on a line whose first word it is.
pub fn at_rest<'a>(line: &'a str) -> (r: Option<&'a str>)
    ensures
        opt_bytes(r) == after_at(bytes(line)),
{
    let t = trim(line);
    let b = t.as_bytes();
    if b.len() >= 3 && b[0] == 'a' as u8 && b[1] == 't' as u8 && space(b[2]) {
        Some(trim_start(slice(t, 2, b.len())))
    } else {
        None
    }
}

/// Splits `<function> (<citation>)`.
pub fn split_call<'a>(rest: &'a str) -> (r: Option<(&'a str, &'a str)>)
    ensures
        pair_bytes(r) == call_split(bytes(rest)),
{
    let b = rest.as_bytes();
    let n = b.len();
    let mut i: usize = 0;
    while i < n && !(space(b[i]) && i + 1 < n && b[i + 1] == '(' as u8)
        invariant
            i <= n,
            n == b@.len(),
            gap(b@, 0) == gap(b@, i as int),
        decreases n - i,
    {
        i += 1;
    }
    if n >= 3 && i < n - 2 && b[n - 1] == ')' as u8 {
        Some((trim_end(slice(rest, 0, i)), slice(rest, i + 2, n - 1)))
    } else {
        None
    }
}

/// Splits `<function> <citation>` at the first run of whitespace.
pub fn split_word<'a>(rest: &'a str) -> (r: Option<(&'a str, &'a str)>)
    ensures
        pair_bytes(r) == word_split(bytes(rest)),
{
    let b = rest.as_bytes();
    let n = b.len();
    let p = find_space(b, 0);
    if 0 < p && p < n {
        Some((slice(rest, 0, p), trim_start(slice(rest, p, n))))
    } else {
        None
    }
}

} // verus!
