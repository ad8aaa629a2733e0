//! Deciding which runtime a trace region came from, and reading it.
//!
//! A region is the text from the line that opens a trace up to the line
//! that opens the next one.

use crate::extract::{
    count_at_frames, count_frames, extract_frames, frames_from, lemma_frames_wf,
};
use crate::frame::{frame_views, string_bytes, Frame, FrameView, TraceFormat};
use crate::go_trace::{
    go_message, goroutine_line, is_goroutine, is_panic_header, panic_header, read_go_message,
};
use crate::lines::{cut_line, lemma_next_line_advances, line_at, next_line};
use crate::node_trace::{error_header, is_error_header};
use crate::rust_trace::{is_thread_header, read_rust_message, rust_message, thread_header};
use crate::site::{after_at, at_rest};
use crate::text::{bytes, clean_cut, slice, trim, trimmed};
use vstd::prelude::*;
use vstd::string::*;

verus! {

/// A half-open range of byte offsets in a text.
#[derive(Clone, Copy, Debug, PartialEq, Eq, Structural)]
pub struct Span {
    /// Offset of the first byte in the range.
    pub start: usize,
    /// Offset of the first byte after the range.
    pub end: usize,
}

/// One trace read from a text.
#[derive(Clone, Debug, PartialEq, Eq)]
pub struct StackTrace {
    /// The runtime that emitted the trace.
    pub format: TraceFormat,
    /// The message of the trace's headline.
    pub message: String,
    /// The frames, in the order the runtime printed them.
    pub frames: Vec<Frame>,
    /// The part of the text that the trace was read from.
    pub span: Span,
}

/// What a [`StackTrace`] stands for.
pub struct TraceView {
    pub format: TraceFormat,
    pub message: Seq<u8>,
    pub frames: Seq<FrameView>,
    pub span: (nat, nat),
}

impl TraceView {
    /// A trace has at least one frame, its frames are sound frames of its
    /// runtime, and its span is not empty.
    pub open spec fn wf(self) -> bool {
        &&& self.frames.len() > 0
        &&& forall|j: int|
            0 <= j < self.frames.len() ==> (#[trigger] self.frames[j]).sound(self.format)
        &&& self.span.0 < self.span.1
    }
}

impl View for StackTrace {
    type V = TraceView;

    open spec fn view(&self) -> TraceView {
        TraceView {
            format: self.format,
            message: string_bytes(self.message),
            frames: frame_views(self.frames@),
            span: (self.span.start as nat, self.span.end as nat),
        }
    }
}

/// The view of an optional trace.
pub open spec fn opt_trace(o: Option<StackTrace>) -> Option<TraceView> {
    match o {
        Some(t) => Some(t@),
        None => None,
    }
}

/// True when the line at `pos` is the headline of a Node.js error: it has
/// the form of one, and the line after it is an `at` line.
pub open spec fn opens_node(b: Seq<u8>, pos: int) -> bool {
    let next = next_line(b, pos);
    is_error_header(line_at(b, pos)) && next < b.len() && after_at(line_at(b, next)) is Some
}

/// True when one of the lines from `pos` on opens a goroutine's section.
pub open spec fn has_goroutine(r: Seq<u8>, pos: int) -> bool
    decreases r.len() - pos,
{
    if pos < 0 || pos >= r.len() {
        false
    } else {
        proof {
            lemma_next_line_advances(r, pos);
        }
        is_goroutine(line_at(r, pos)) || has_goroutine(r, next_line(r, pos))
    }
}

/// The runtime that the region `r` came from, judged by its first line and
/// the shape of its frames.
///
/// A `thread '...' panicked` headline makes a Rust trace. A `panic:`
/// headline with a goroutine section after it makes a Go trace. Under the
/// headline of a Node.js error the lines are counted that read as Rust
/// frames and as Node.js frames: the region is a Rust trace if more lines
/// read as Rust frames, a Node.js trace otherwise. Any other region is a
/// Rust trace if one of its lines reads as a Rust frame.
pub open spec fn classify(r: Seq<u8>) -> Option<TraceFormat> {
    let first = line_at(r, 0);
    let next = next_line(r, 0);
    if is_thread_header(first) {
        Some(TraceFormat::Rust)
    } else if is_panic_header(first) && has_goroutine(r, next) {
        Some(TraceFormat::Go)
    } else if opens_node(r, 0) {
        if count_frames(TraceFormat::Rust, r, next) > count_frames(TraceFormat::NodeJs, r, next) {
            Some(TraceFormat::Rust)
        } else {
            Some(TraceFormat::NodeJs)
        }
    } else if count_frames(TraceFormat::Rust, r, 0) > 0 {
        Some(TraceFormat::Rust)
    } else {
        None
    }
}

/// The message of the region `r`, read as a trace of the given runtime.
///
/// A Rust trace without a `thread '...' panicked` headline has no message.
/// The message of a Node.js trace is its whole headline, error class
/// included.
pub open spec fn message_of(format: TraceFormat, r: Seq<u8>) -> Seq<u8> {
    let first = line_at(r, 0);
    match format {
        TraceFormat::Rust => if is_thread_header(first) {
            rust_message(first)
        } else {
            Seq::empty()
        },
        TraceFormat::Go => match go_message(first) {
            Some(message) => message,
            None => Seq::empty(),
        },
        TraceFormat::NodeJs => trimmed(first),
    }
}

/// The frames of the region `r`, read as a trace of the given runtime. The
/// headline of a Go or Node.js trace is not scanned for frames.
pub open spec fn frames_of(format: TraceFormat, r: Seq<u8>) -> Seq<FrameView> {
    match format {
        TraceFormat::Rust => frames_from(format, r, 0, false),
        _ => frames_from(format, r, next_line(r, 0), false),
    }
}

/// The trace that the region `r`, which starts at offset `start` of the
/// text, holds. A region of no known runtime, or without frames, holds none.
pub open spec fn region_trace(r: Seq<u8>, start: nat) -> Option<TraceView> {
    match classify(r) {
        None => None,
        Some(format) => {
            let frames = frames_of(format, r);
            if frames.len() > 0 {
                Some(
                    TraceView {
                        format,
                        message: message_of(format, r),
                        frames,
                        span: (start, start + r.len()),
                    },
                )
            } else {
                None
            }
        },
    }
}

/// The trace of a region is well formed and spans the region.
pub proof fn lemma_region_trace_wf(r: Seq<u8>, start: nat)
    ensures
        region_trace(r, start) matches Some(trace) ==> trace.wf() && trace.span == (
            start,
            start + r.len(),
        ),
{
    match classify(r) {
        Some(format) => {
            lemma_frames_wf(format, r, 0, false);
            lemma_frames_wf(format, r, next_line(r, 0), false);
            if frames_of(format, r).len() > 0 {
                assert(r.len() > 0);
            }
        },
        None => {},
    }
}

/// Tells whether the line of `text` at `pos`, which has been cut already,
/// is the headline of a Node.js error.
pub(crate) fn node_opening(text: &str, pos: usize, line: &str, next: usize) -> (r: bool)
    requires
        pos < bytes(text).len(),
        clean_cut(bytes(text), pos as int),
        bytes(line) == line_at(bytes(text), pos as int),
        next == next_line(bytes(text), pos as int),
    ensures
        r == opens_node(bytes(text), pos as int),
{
    proof {
        lemma_next_line_advances(bytes(text), pos as int);
    }
    if error_header(line) && next < text.as_bytes().len() {
        let (second, _) = cut_line(text, next);
        at_rest(second).is_some()
    } else {
        false
    }
}

/// Tells whether one of the lines of `region` from `start` on opens a
/// goroutine's section.
fn find_goroutine(region: &str, start: usize) -> (r: bool)
    requires
        start <= bytes(region).len(),
        clean_cut(bytes(region), start as int),
    ensures
        r == has_goroutine(bytes(region), start as int),
{
    let n = region.as_bytes().len();
    let mut pos = start;
    while pos < n
        invariant
            pos <= n,
            n == bytes(region).len(),
            clean_cut(bytes(region), pos as int),
            has_goroutine(bytes(region), start as int) == has_goroutine(
                bytes(region),
                pos as int,
            ),
        decreases n - pos,
    {
        let (line, next) = cut_line(region, pos);
        if goroutine_line(line) {
            return true;
        }
        pos = next;
    }
    false
}

/// Decides which runtime a region came from.
pub fn classify_region(region: &str) -> (r: Option<TraceFormat>)
    ensures
        r == classify(bytes(region)),
{
    if region.as_bytes().len() == 0 {
        proof {
            reveal_strlit("thread '");
            is_ascii_spec_bytes("thread '");
            reveal_strlit("panic:");
            is_ascii_spec_bytes("panic:");
        }
        return None;
    }
    let (first, next) = cut_line(region, 0);
    if thread_header(first) {
        return Some(TraceFormat::Rust);
    }
    if panic_header(first) && find_goroutine(region, next) {
        return Some(TraceFormat::Go);
    }
    if node_opening(region, 0, first, next) {
        let rust = count_at_frames(TraceFormat::Rust, region, next);
        let node = count_at_frames(TraceFormat::NodeJs, region, next);
        return if rust > node {
            Some(TraceFormat::Rust)
        } else {
            Some(TraceFormat::NodeJs)
        };
    }
    if count_at_frames(TraceFormat::Rust, region, 0) > 0 {
        Some(TraceFormat::Rust)
    } else {
        None
    }
}

/// Reads the message of a region as a trace of the given runtime.
fn read_message<'a>(format: TraceFormat, region: &'a str) -> (r: &'a str)
    requires
        bytes(region).len() > 0,
    ensures
        bytes(r) == message_of(format, bytes(region)),
{
    let (first, _) = cut_line(region, 0);
    match format {
        TraceFormat::Rust => if thread_header(first) {
            read_rust_message(first)
        } else {
            slice(first, 0, 0)
        },
        TraceFormat::Go => match read_go_message(first) {
            Some(message) => message,
            None => slice(first, 0, 0),
        },
        TraceFormat::NodeJs => trim(first),
    }
}

/// Reads the trace that a region holds. `start` is the offset of the region
/// in the text it was cut from.
pub fn parse_region(region: &str, start: usize) -> (r: Option<StackTrace>)
    requires
        start + bytes(region).len() <= usize::MAX,
    ensures
        opt_trace(r) == region_trace(bytes(region), start as nat),
{
    let format = match classify_region(region) {
        Some(format) => format,
        None => { return None; },
    };
    if region.as_bytes().len() == 0 {
        return None;
    }
    let (_, next) = cut_line(region, 0);
    let frames = match format {
        TraceFormat::Rust => extract_frames(format, region, 0),
        _ => extract_frames(format, region, next),
    };
    if frames.len() == 0 {
        return None;
    }
    let message = read_message(format, region).to_owned();
    let span = Span { start, end: start + region.as_bytes().len() };
    Some(StackTrace { format, message, frames, span })
}

} // verus!
