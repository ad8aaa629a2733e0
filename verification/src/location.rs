//! Source citations of the form `file:line[:column]`.

use crate::text::{bytes, decimal, is_numeric, numeric, parse_number, rsplit_once, split_last};
use vstd::prelude::*;

verus! {

/// What a citation names: a file, and possibly a line and a column in it.
pub struct Location {
    pub file: Seq<u8>,
    pub line: Option<nat>,
    pub column: Option<nat>,
}

/// Reads a citation from the right, so that colons inside the file part
/// (a drive letter, a `node:` scheme) stay with the file.
///
/// If the text between the last two colons is written like a number, the
/// citation has the form `file:line:column`; otherwise it has the form
/// `file:line`. A line or column that is not a positive number that fits a
/// `usize` is left out, and so is the column of a line that is left out.
/// A citation without a colon, or with nothing in front of its numeric
/// fields, names no location.
pub open spec fn located(cite: Seq<u8>) -> Option<Location> {
    match split_last(cite, ':' as u8) {
        None => None,
        Some((head, tail)) => {
            let loc = match split_last(head, ':' as u8) {
                Some((path, mid)) => if is_numeric(mid) {
                    Location {
                        file: path,
                        line: decimal(mid),
                        column: if decimal(mid) is Some {
                            decimal(tail)
                        } else {
                            None
                        },
                    }
                } else {
                    Location { file: head, line: decimal(tail), column: None }
                },
                None => Location { file: head, line: decimal(tail), column: None },
            };
            if loc.file.len() > 0 {
                Some(loc)
            } else {
                None
            }
        },
    }
}

/// A location names a file; it has a column only with a line, and its
/// numbers count from one.
pub proof fn lemma_located_wf(cite: Seq<u8>)
    ensures
        located(cite) matches Some(loc) ==> {
            &&& loc.file.len() > 0
            &&& (loc.column is Some ==> loc.line is Some)
            &&& (loc.line matches Some(n) ==> n >= 1)
            &&& (loc.column matches Some(n) ==> n >= 1)
        },
{
}

/// A citation's parts, borrowed from the text it was read from.
pub struct Place<'a> {
    pub file: &'a str,
    pub line: Option<usize>,
    pub column: Option<usize>,
}

impl<'a> View for Place<'a> {
    type V = Location;

    open spec fn view(&self) -> Location {
        Location {
            file: bytes(self.file),
            line: match self.line {
                Some(n) => Some(n as nat),
                None => None,
            },
            column: match self.column {
                Some(n) => Some(n as nat),
                None => None,
            },
        }
    }
}

/// The view of an optional place.
pub open spec fn opt_location(p: Option<Place>) -> Option<Location> {
    match p {
        Some(p) => Some(p@),
        None => None,
    }
}

/// Reads a citation.
pub fn locate<'a>(cite: &'a str) -> (r: Option<Place<'a>>)
    ensures
        opt_location(r) == located(bytes(cite)),
{
    match rsplit_once(cite, ':' as u8) {
        None => None,
        Some((head, tail)) => {
            let last = parse_number(tail.as_bytes());
            let place = match rsplit_once(head, ':' as u8) {
                Some((path, mid)) => {
                    if numeric(mid.as_bytes()) {
                        match parse_number(mid.as_bytes()) {
                            Some(n) => Place { file: path, line: Some(n), column: last },
                            None => Place { file: path, line: None, column: None },
                        }
                    } else {
                        Place { file: head, line: last, column: None }
                    }
                },
                None => Place { file: head, line: last, column: None },
            };
            if place.file.as_bytes().len() > 0 {
                Some(place)
            } else {
                None
            }
        },
    }
}

} // verus!
