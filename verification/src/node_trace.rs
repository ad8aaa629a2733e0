//! Node.js errors: the `<Name>: <message>` headline and `at` frame lines.

use crate::frame::{frame_of, opt_frame, Frame, FrameView, TraceFormat};
use crate::location::{locate, located};
use crate::site::{after_at, at_rest, call_split, split_call};
use crate::text::{bytes, find_space, is_digit, is_space, space, word_end};
use vstd::prelude::*;

verus! {

/// The frame made of a function and a citation, which must name a file, a
/// line and a column.
pub open spec fn node_site(function: Seq<u8>, cite: Seq<u8>, raw: Seq<u8>) -> Option<FrameView> {
    match located(cite) {
        None => None,
        Some(loc) => if function.len() > 0 && loc.line is Some && loc.column is Some {
            Some(
                frame_of(
                    TraceFormat::NodeJs,
                    function,
                    Some(loc.file),
                    loc.line,
                    loc.column,
                    raw,
                ),
            )
        } else {
            None
        },
    }
}

/// The frame that a line of a Node.js trace stands for, if it is a frame line.
///
/// A frame line reads `at <function> (<file>:<line>:<column>)`, or
/// `at <file>:<line>:<column>` without whitespace in the citation, in which
/// case the function is `<anonymous>`.
pub open spec fn node_frame(line: Seq<u8>) -> Option<FrameView> {
    match after_at(line) {
        None => None,
        Some(rest) => match call_split(rest) {
            Some((function, cite)) => node_site(function, cite, line),
            None => if word_end(rest, 0) == rest.len() {
                node_site(bytes("<anonymous>"), rest, line)
            } else {
                None
            },
        },
    }
}

/// A byte that may start an identifier: a letter, `_` or `$`.
pub open spec fn is_ident_start(c: u8) -> bool {
    ('a' as u8 <= c && c <= 'z' as u8) || ('A' as u8 <= c && c <= 'Z' as u8) || c == '_' as u8 || c
        == '$' as u8
}

/// A byte that may continue an identifier.
pub open spec fn is_ident(c: u8) -> bool {
    is_ident_start(c) || is_digit(c)
}

/// Index of the first byte at or after `i` that cannot continue an
/// identifier (the length if there is none).
pub open spec fn ident_end(s: Seq<u8>, i: int) -> int
    decreases s.len() - i,
{
    if 0 <= i < s.len() && is_ident(s[i]) {
        ident_end(s, i + 1)
    } else {
        i
    }
}

/// True for the headline of a Node.js error: an identifier at the start of
/// the line, directly followed by a colon that ends the line or is followed
/// by whitespace.
pub open spec fn is_error_header(line: Seq<u8>) -> bool {
    let e = ident_end(line, 0);
    &&& line.len() > 0
    &&& is_ident_start(line[0])
    &&& e < line.len()
    &&& line[e] == ':' as u8
    &&& (e + 1 == line.len() || is_space(line[e + 1]))
}

fn read_node_site(function: &str, cite: &str, raw: &str) -> (r: Option<Frame>)
    ensures
        opt_frame(r) == node_site(bytes(function), bytes(cite), bytes(raw)),
{
    match locate(cite) {
        Some(place) => {
            if function.as_bytes().len() > 0 && place.line.is_some() && place.column.is_some() {
                Some(
                    Frame::new(
                        TraceFormat::NodeJs,
                        function,
                        Some(place.file),
                        place.line,
                        place.column,
                        raw,
                    ),
                )
            } else {
                None
            }
        },
        None => None,
    }
}

/// Reads one line of a Node.js trace as a frame.
pub fn parse_node_frame(line: &str) -> (r: Option<Frame>)
    ensures
        opt_frame(r) == node_frame(bytes(line)),
{
    let rest = match at_rest(line) {
        Some(rest) => rest,
        None => { return None; },
    };
    match split_call(rest) {
        Some((function, cite)) => read_node_site(function, cite, line),
        None => {
            let b = rest.as_bytes();
            if find_space(b, 0) == b.len() {
                read_node_site("<anonymous>", rest, line)
            } else {
                None
            }
        },
    }
}

fn ident_start(c: u8) -> (r: bool)
    ensures
        r == is_ident_start(c),
{
    ('a' as u8 <= c && c <= 'z' as u8) || ('A' as u8 <= c && c <= 'Z' as u8) || c == '_' as u8 || c
        == '$' as u8
}

/// Tells whether a line is the headline of a Node.js error.
pub fn error_header(line: &str) -> (r: bool)
    ensures
        r == is_error_header(bytes(line)),
{
    let b = line.as_bytes();
    let n = b.len();
    if n == 0 || !ident_start(b[0]) {
        return false;
    }
    let mut i: usize = 0;
    while i < n && (ident_start(b[i]) || (0x30 <= b[i] && b[i] <= 0x39))
        invariant
            i <= n,
            n == b@.len(),
            ident_end(b@, 0) == ident_end(b@, i as int),
        decreases n - i,
    {
        i += 1;
    }
    i < n && b[i] == ':' as u8 && (i + 1 == n || space(b[i + 1]))
}

} // verus!
