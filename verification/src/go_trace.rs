//! Go panics: the `panic:` headline, `goroutine` lines, and frames made of a
//! function line and an indented location line.

use crate::text::{
    bytes, decimal, find_space, is_space, last_of, opt_bytes, parse_number, prefixed,
    rfind_byte, rsplit_once, skip_past, slice, space, split_last, starts_with, trim, trim_end,
    trim_start, trimmed, trimmed_end, trimmed_start, word_end,
};
use vstd::prelude::*;
use vstd::string::*;

verus! {

/// The function named by a function line of a Go trace: what stands before
/// the last opening parenthesis of a line that ends with a closing one.
/// The name is not empty and holds no whitespace.
pub open spec fn go_function(line: Seq<u8>) -> Option<Seq<u8>> {
    let t = trimmed(line);
    match last_of(t, '(' as u8) {
        Some(q) => if q > 0 && t.last() == ')' as u8 && word_end(t, 0) >= q {
            Some(t.take(q))
        } else {
            None
        },
        None => None,
    }
}

/// The file and line named by a location line of a Go trace: an indented
/// `<file>:<line>`, alone on its line or followed by a `+0x...` offset.
pub open spec fn go_location(line: Seq<u8>) -> Option<(Seq<u8>, nat)> {
    if line.len() > 0 && is_space(line[0]) {
        let t = trimmed(line);
        let p = word_end(t, 0);
        let rest = trimmed_start(t.skip(p));
        if rest.len() == 0 || prefixed(rest, bytes("+0x")) {
            match split_last(t.take(p), ':' as u8) {
                Some((file, number)) => if file.len() > 0 && decimal(number) is Some {
                    Some((file, decimal(number)->0))
                } else {
                    None
                },
                None => None,
            }
        } else {
            None
        }
    } else {
        None
    }
}

/// True for the headline of a Go panic.
pub open spec fn is_panic_header(line: Seq<u8>) -> bool {
    prefixed(line, bytes("panic:"))
}

/// The message of a Go panic headline: what follows `panic:`, trimmed.
pub open spec fn go_message(line: Seq<u8>) -> Option<Seq<u8>> {
    if is_panic_header(line) {
        Some(trimmed(line.skip(bytes("panic:").len() as int)))
    } else {
        None
    }
}

/// True for the line that opens a goroutine's section: `goroutine ...:`.
pub open spec fn is_goroutine(line: Seq<u8>) -> bool {
    let t = trimmed_end(line);
    prefixed(line, bytes("goroutine ")) && t.len() > 0 && t.last() == ':' as u8
}

/// The view of an optional file and line.
pub open spec fn opt_file_line(o: Option<(&str, usize)>) -> Option<(Seq<u8>, nat)> {
    match o {
        Some((file, n)) => Some((bytes(file), n as nat)),
        None => None,
    }
}

/// Reads a function line of a Go trace.
pub fn read_go_function<'a>(line: &'a str) -> (r: Option<&'a str>)
    ensures
        opt_bytes(r) == go_function(bytes(line)),
{
    let t = trim(line);
    let b = t.as_bytes();
    match rfind_byte(b, '(' as u8) {
        Some(q) => {
            if q > 0 && b[b.len() - 1] == ')' as u8 && find_space(b, 0) >= q {
                Some(slice(t, 0, q))
            } else {
                None
            }
        },
        None => None,
    }
}

/// Reads a location line of a Go trace.
pub fn read_go_location<'a>(line: &'a str) -> (r: Option<(&'a str, usize)>)
    ensures
        opt_file_line(r) == go_location(bytes(line)),
{
    let raw = line.as_bytes();
    if raw.len() == 0 || !space(raw[0]) {
        return None;
    }
    let t = trim(line);
    let b = t.as_bytes();
    let p = find_space(b, 0);
    let rest = trim_start(slice(t, p, b.len()));
    if rest.as_bytes().len() == 0 || starts_with(rest.as_bytes(), "+0x".as_bytes()) {
        match rsplit_once(slice(t, 0, p), ':' as u8) {
            Some((file, number)) => {
                match parse_number(number.as_bytes()) {
                    Some(n) => {
                        if file.as_bytes().len() > 0 {
                            Some((file, n))
                        } else {
                            None
                        }
                    },
                    None => None,
                }
            },
            None => None,
        }
    } else {
        None
    }
}

/// Tells whether a line is the headline of a Go panic.
pub fn panic_header(line: &str) -> (r: bool)
    ensures
        r == is_panic_header(bytes(line)),
{
    starts_with(line.as_bytes(), "panic:".as_bytes())
}

/// The message of a Go panic headline, if the line is one.
pub fn read_go_message<'a>(line: &'a str) -> (r: Option<&'a str>)
    ensures
        opt_bytes(r) == go_message(bytes(line)),
{
    if panic_header(line) {
        proof {
            reveal_strlit("panic:");
            is_ascii_spec_bytes("panic:");
        }
        Some(trim(skip_past(line, "panic:", 0)))
    } else {
        None
    }
}

/// Tells whether a line opens a goroutine's section.
pub fn goroutine_line(line: &str) -> (r: bool)
    ensures
        r == is_goroutine(bytes(line)),
{
    let t = trim_end(line).as_bytes();
    starts_with(line.as_bytes(), "goroutine ".as_bytes()) && t.len() > 0 && t[t.len() - 1]
        == ':' as u8
}

} // verus!
