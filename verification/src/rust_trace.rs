//! Rust panics: the `thread '...' panicked` headline and `at` frame lines.

use crate::frame::{frame_of, opt_frame, Frame, FrameView, TraceFormat};
use crate::location::{locate, located};
use crate::site::{after_at, at_rest, call_split, split_call, split_word, word_split};
use crate::text::{
    bytes, contains, find_byte, find_str, first_match, first_of, includes, prefixed, skip_past,
    slice, starts_with, trim, trimmed,
};
use vstd::prelude::*;
use vstd::string::*;

verus! {

/// The frame that a line of a Rust trace stands for, if it is a frame line.
///
/// A frame line reads `at <function> (<citation>)` or, failing that,
/// `at <function> <citation>`. The citation must name a location; a line or
/// column that is not a positive number is left out of the frame.
pub open spec fn rust_frame(line: Seq<u8>) -> Option<FrameView> {
    match after_at(line) {
        None => None,
        Some(rest) => {
            let parts = if call_split(rest) is Some {
                call_split(rest)
            } else {
                word_split(rest)
            };
            match parts {
                None => None,
                Some((function, cite)) => match located(cite) {
                    None => None,
                    Some(loc) => if function.len() > 0 {
                        Some(
                            frame_of(
                                TraceFormat::Rust,
                                function,
                                Some(loc.file),
                                loc.line,
                                loc.column,
                                line,
                            ),
                        )
                    } else {
                        None
                    },
                },
            }
        },
    }
}

/// True for the headline of a Rust panic: `thread '<name>' panicked ...`.
pub open spec fn is_thread_header(line: Seq<u8>) -> bool {
    prefixed(line, bytes("thread '")) && contains(line, bytes("' panicked"))
}

/// The message of a Rust panic headline: what follows `panicked at `, taken
/// from between the quotes if it opens with a quoted text, trimmed
/// otherwise; nothing if the headline does not say `panicked at `.
pub open spec fn rust_message(line: Seq<u8>) -> Seq<u8> {
    match first_match(line, bytes("panicked at ")) {
        None => Seq::empty(),
        Some(k) => {
            let after = line.skip(k + bytes("panicked at ").len());
            if after.len() > 0 && after[0] == '\'' as u8 {
                match first_of(after.skip(1), '\'' as u8) {
                    Some(q) => after.subrange(1, 1 + q),
                    None => trimmed(after),
                }
            } else {
                trimmed(after)
            }
        },
    }
}

/// Reads one line of a Rust trace as a frame.
pub fn parse_rust_frame(line: &str) -> (r: Option<Frame>)
    ensures
        opt_frame(r) == rust_frame(bytes(line)),
{
    let rest = match at_rest(line) {
        Some(rest) => rest,
        None => { return None; },
    };
    let parts = match split_call(rest) {
        Some(parts) => Some(parts),
        None => split_word(rest),
    };
    let (function, cite) = match parts {
        Some(parts) => parts,
        None => { return None; },
    };
    match locate(cite) {
        Some(place) => {
            if function.as_bytes().len() > 0 {
                Some(
                    Frame::new(
                        TraceFormat::Rust,
                        function,
                        Some(place.file),
                        place.line,
                        place.column,
                        line,
                    ),
                )
            } else {
                None
            }
        },
        None => None,
    }
}

/// Tells whether a line is the headline of a Rust panic.
pub fn thread_header(line: &str) -> (r: bool)
    ensures
        r == is_thread_header(bytes(line)),
{
    let b = line.as_bytes();
    starts_with(b, "thread '".as_bytes()) && includes(b, "' panicked".as_bytes())
}

/// The message of a Rust panic headline.
pub fn read_rust_message<'a>(line: &'a str) -> (r: &'a str)
    ensures
        bytes(r) == rust_message(bytes(line)),
{
    match find_str(line.as_bytes(), "panicked at ".as_bytes()) {
        None => slice(line, 0, 0),
        Some(k) => {
            proof {
                reveal_strlit("panicked at ");
                is_ascii_spec_bytes("panicked at ");
            }
            let after = skip_past(line, "panicked at ", k);
            let a = after.as_bytes();
            if a.len() > 0 && a[0] == '\'' as u8 {
                let inner = slice(after, 1, a.len());
                match find_byte(inner.as_bytes(), '\'' as u8) {
                    Some(q) => slice(after, 1, 1 + q),
                    None => trim(after),
                }
            } else {
                trim(after)
            }
        },
    }
}

} // verus!
