//! Finding the stack traces in a text.
//!
//! A text may hold any number of traces among other output. Each trace
//! opens at an anchor: the headline of a Rust panic, a Go panic or a
//! Node.js error, or, before the first headline, a line that reads as a
//! Rust frame. The region of a trace runs from its anchor to the next one.

pub use crate::frame::{Frame, FrameView, TraceFormat};
pub use crate::region::{Span, StackTrace, TraceView};

use crate::extract::{frames_from, lemma_frames_raw};
use crate::frame::stdlib;
use crate::go_trace::{is_panic_header, panic_header};
use crate::lines::{cut_line, lemma_next_line_advances, line_at, next_line};
use crate::region::{
    lemma_region_trace_wf, node_opening, opens_node, opt_trace, parse_region, region_trace,
};
use crate::rust_trace::{is_thread_header, parse_rust_frame, rust_frame, thread_header};
use crate::text::{bytes, clean_cut, occurs_at, slice, stands_in};
use vstd::prelude::*;

verus! {

/// True when the line at `pos` is the headline of a trace.
pub open spec fn is_header_at(b: Seq<u8>, pos: int) -> bool {
    let line = line_at(b, pos);
    is_thread_header(line) || is_panic_header(line) || opens_node(b, pos)
}

/// True when a trace opens at the line at `pos`. A line that reads as a
/// Rust frame opens one only while `bare` holds, that is, before the first
/// anchor of the text.
pub open spec fn is_anchor(b: Seq<u8>, pos: int, bare: bool) -> bool {
    is_header_at(b, pos) || (bare && rust_frame(line_at(b, pos)) is Some)
}

/// Offset of the first anchor at or after the line at `pos` (the length of
/// the text if there is none).
pub open spec fn next_anchor(b: Seq<u8>, pos: int, bare: bool) -> int
    decreases b.len() - pos,
{
    if pos < 0 || pos >= b.len() {
        b.len() as int
    } else if is_anchor(b, pos, bare) {
        pos
    } else {
        proof {
            lemma_next_line_advances(b, pos);
        }
        next_anchor(b, next_line(b, pos), bare)
    }
}

/// An anchor search from a line start ends on a line start inside the text.
pub proof fn lemma_next_anchor_bounds(b: Seq<u8>, pos: int, bare: bool)
    requires
        0 <= pos <= b.len(),
        clean_cut(b, pos),
    ensures
        pos <= next_anchor(b, pos, bare) <= b.len(),
        clean_cut(b, next_anchor(b, pos, bare)),
    decreases b.len() - pos,
{
    if pos < b.len() && !is_anchor(b, pos, bare) {
        lemma_next_line_advances(b, pos);
        lemma_next_anchor_bounds(b, next_line(b, pos), bare);
    }
}

/// Offset at which the region that opens at the anchor `a` ends.
pub open spec fn region_end(b: Seq<u8>, a: int) -> int {
    next_anchor(b, next_line(b, a), false)
}

/// A region is not empty and ends on a line start inside the text.
pub proof fn lemma_region_end_bounds(b: Seq<u8>, a: int)
    requires
        0 <= a < b.len(),
    ensures
        a < region_end(b, a) <= b.len(),
        clean_cut(b, region_end(b, a)),
{
    lemma_next_line_advances(b, a);
    lemma_next_anchor_bounds(b, next_line(b, a), false);
}

/// The traces of the regions that open at the anchor `a` and after it.
pub open spec fn traces_after(b: Seq<u8>, a: int) -> Seq<TraceView>
    decreases b.len() - a,
{
    if a < 0 || a >= b.len() {
        Seq::empty()
    } else {
        proof {
            lemma_region_end_bounds(b, a);
        }
        let end = region_end(b, a);
        match region_trace(b.subrange(a, end), a as nat) {
            Some(trace) => seq![trace] + traces_after(b, end),
            None => traces_after(b, end),
        }
    }
}

/// The traces that the text `b` holds, in the order of their anchors.
pub open spec fn traces(b: Seq<u8>) -> Seq<TraceView> {
    traces_after(b, next_anchor(b, 0, true))
}

/// The traces read from `a` on are well formed, lie between `a` and the end
/// of the text, and stand one after the other.
pub proof fn lemma_traces_after(b: Seq<u8>, a: int)
    requires
        0 <= a,
    ensures
        forall|i: int|
            0 <= i < traces_after(b, a).len() ==> {
                let t = #[trigger] traces_after(b, a)[i];
                t.wf() && a <= t.span.0 && t.span.1 <= b.len()
            },
        forall|i: int, j: int|
            0 <= i < j < traces_after(b, a).len() ==> (#[trigger] traces_after(b, a)[i]).span.1
                <= (#[trigger] traces_after(b, a)[j]).span.0,
    decreases b.len() - a,
{
    let all = traces_after(b, a);
    if a < b.len() {
        lemma_region_end_bounds(b, a);
        let end = region_end(b, a);
        let rest = traces_after(b, end);
        lemma_traces_after(b, end);
        lemma_region_trace_wf(b.subrange(a, end), a as nat);
        match region_trace(b.subrange(a, end), a as nat) {
            Some(trace) => {
                assert(all == seq![trace] + rest);
                assert forall|i: int| 0 <= i < all.len() implies {
                    let t = #[trigger] all[i];
                    t.wf() && a <= t.span.0 && t.span.1 <= b.len()
                } by {
                    if i > 0 {
                        assert(all[i] == rest[i - 1]);
                    }
                }
                assert forall|i: int, j: int| 0 <= i < j < all.len() implies (#[trigger] all[i]).span.1
                    <= (#[trigger] all[j]).span.0 by {
                    assert(all[j] == rest[j - 1]);
                    if i > 0 {
                        assert(all[i] == rest[i - 1]);
                    }
                }
            },
            None => {
                assert(all == rest);
            },
        }
    } else {
        assert(all == Seq::<TraceView>::empty());
    }
}

/// An anchor search ends on an anchor, unless it ends with the text.
pub proof fn lemma_next_anchor_found(b: Seq<u8>, pos: int, bare: bool)
    requires
        0 <= pos <= b.len(),
    ensures
        next_anchor(b, pos, bare) < b.len() ==> is_anchor(b, next_anchor(b, pos, bare), bare),
    decreases b.len() - pos,
{
    if pos < b.len() && !is_anchor(b, pos, bare) {
        lemma_next_line_advances(b, pos);
        lemma_next_anchor_found(b, next_line(b, pos), bare);
    }
}

/// Each of the traces read from the anchor `a` on starts at an anchor of
/// the text, spans the region that opens there, and is what that region
/// alone holds.
pub proof fn lemma_traces_after_anchored(b: Seq<u8>, a: int)
    requires
        0 <= a <= b.len(),
        a < b.len() ==> is_anchor(b, a, true),
    ensures
        forall|i: int|
            0 <= i < traces_after(b, a).len() ==> {
                let t = #[trigger] traces_after(b, a)[i];
                &&& is_anchor(b, t.span.0 as int, true)
                &&& t.span.1 == region_end(b, t.span.0 as int)
                &&& region_trace(b.subrange(t.span.0 as int, t.span.1 as int), t.span.0) == Some(
                    t,
                )
            },
    decreases b.len() - a,
{
    let all = traces_after(b, a);
    if a < b.len() {
        lemma_region_end_bounds(b, a);
        let end = region_end(b, a);
        let rest = traces_after(b, end);
        lemma_next_line_advances(b, a);
        lemma_next_anchor_found(b, next_line(b, a), false);
        lemma_traces_after_anchored(b, end);
        lemma_region_trace_wf(b.subrange(a, end), a as nat);
        match region_trace(b.subrange(a, end), a as nat) {
            Some(trace) => {
                assert(all == seq![trace] + rest);
                assert forall|i: int| 0 <= i < all.len() implies {
                    let t = #[trigger] all[i];
                    &&& is_anchor(b, t.span.0 as int, true)
                    &&& t.span.1 == region_end(b, t.span.0 as int)
                    &&& region_trace(b.subrange(t.span.0 as int, t.span.1 as int), t.span.0)
                        == Some(t)
                } by {
                    if i > 0 {
                        assert(all[i] == rest[i - 1]);
                    }
                }
            },
            None => {
                assert(all == rest);
            },
        }
    } else {
        assert(all == Seq::<TraceView>::empty());
    }
}

/// Every trace read from a text starts at an anchor of the text, spans the
/// region that opens there, and is what that region alone holds.
pub proof fn lemma_traces_anchored(b: Seq<u8>)
    ensures
        forall|i: int|
            0 <= i < traces(b).len() ==> {
                let t = #[trigger] traces(b)[i];
                &&& is_anchor(b, t.span.0 as int, true)
                &&& t.span.1 == region_end(b, t.span.0 as int)
                &&& region_trace(b.subrange(t.span.0 as int, t.span.1 as int), t.span.0) == Some(
                    t,
                )
            },
{
    lemma_next_anchor_bounds(b, 0, true);
    lemma_next_anchor_found(b, 0, true);
    lemma_traces_after_anchored(b, next_anchor(b, 0, true));
}

/// Every trace read from a text has at least one frame.
pub proof fn lemma_traces_have_frames(b: Seq<u8>)
    ensures
        forall|i: int| 0 <= i < traces(b).len() ==> (#[trigger] traces(b)[i]).frames.len() > 0,
{
    lemma_next_anchor_bounds(b, 0, true);
    lemma_traces_after(b, next_anchor(b, 0, true));
}

/// In every frame read from a text, a column comes only with a line and a
/// line only with a file.
pub proof fn lemma_frames_located(b: Seq<u8>)
    ensures
        forall|i: int, j: int|
            0 <= i < traces(b).len() && 0 <= j < traces(b)[i].frames.len() ==> {
                let f = #[trigger] traces(b)[i].frames[j];
                (f.column is Some ==> f.line is Some) && (f.line is Some ==> f.file is Some)
            },
{
    lemma_next_anchor_bounds(b, 0, true);
    lemma_traces_after(b, next_anchor(b, 0, true));
    assert forall|i: int, j: int|
        0 <= i < traces(b).len() && 0 <= j < traces(b)[i].frames.len() implies {
            let f = #[trigger] traces(b)[i].frames[j];
            (f.column is Some ==> f.line is Some) && (f.line is Some ==> f.file is Some)
        } by {
        assert(traces(b)[i].wf());
        assert(traces(b)[i].frames[j].sound(traces(b)[i].format));
    }
}

/// Every frame read from a text is marked as library code exactly when the
/// rules of its trace's runtime say that it is.
pub proof fn lemma_frames_classified(b: Seq<u8>)
    ensures
        forall|i: int, j: int|
            0 <= i < traces(b).len() && 0 <= j < traces(b)[i].frames.len() ==> {
                let f = #[trigger] traces(b)[i].frames[j];
                f.is_stdlib == stdlib(traces(b)[i].format, f.function, f.file)
            },
{
    lemma_next_anchor_bounds(b, 0, true);
    lemma_traces_after(b, next_anchor(b, 0, true));
    assert forall|i: int, j: int|
        0 <= i < traces(b).len() && 0 <= j < traces(b)[i].frames.len() implies {
            let f = #[trigger] traces(b)[i].frames[j];
            f.is_stdlib == stdlib(traces(b)[i].format, f.function, f.file)
        } by {
        assert(traces(b)[i].wf());
        assert(traces(b)[i].frames[j].sound(traces(b)[i].format));
    }
}

/// The raw text of every frame read from a text stands in the text, inside
/// the span of the frame's trace.
pub proof fn lemma_raw_in_span(b: Seq<u8>)
    ensures
        forall|i: int, j: int|
            0 <= i < traces(b).len() && 0 <= j < traces(b)[i].frames.len() ==> stands_in(
                (#[trigger] traces(b)[i].frames[j]).raw,
                b,
                traces(b)[i].span.0 as int,
                traces(b)[i].span.1 as int,
            ),
{
    lemma_next_anchor_bounds(b, 0, true);
    lemma_traces_after(b, next_anchor(b, 0, true));
    lemma_traces_anchored(b);
    assert forall|i: int, j: int|
        0 <= i < traces(b).len() && 0 <= j < traces(b)[i].frames.len() implies stands_in(
        (#[trigger] traces(b)[i].frames[j]).raw,
        b,
        traces(b)[i].span.0 as int,
        traces(b)[i].span.1 as int,
    ) by {
        let t = traces(b)[i];
        let start = t.span.0 as int;
        let end = t.span.1 as int;
        let r = b.subrange(start, end);
        let raw = t.frames[j].raw;
        assert(t.wf() && end <= b.len());
        assert(region_trace(r, t.span.0) == Some(t));
        let from = if t.format == TraceFormat::Rust {
            0
        } else {
            next_line(r, 0)
        };
        if r.len() > 0 {
            lemma_next_line_advances(r, 0);
        }
        lemma_frames_raw(t.format, r, from, false);
        assert(t.frames == frames_from(t.format, r, from, false));
        let k = choose|k: int| from <= k && k + raw.len() <= r.len() && #[trigger] occurs_at(
            r,
            raw,
            k,
        );
        assert(b.subrange(start + k, start + k + raw.len()) =~= r.subrange(k, k + raw.len()));
        assert(occurs_at(b, raw, start + k));
    }
}

/// The traces read from a text come in the order of their regions: a later
/// trace starts at a greater offset.
pub proof fn lemma_traces_in_order(b: Seq<u8>)
    ensures
        forall|i: int, j: int|
            0 <= i < j < traces(b).len() ==> (#[trigger] traces(b)[i]).span.0 < (
            #[trigger] traces(b)[j]).span.0,
{
    lemma_next_anchor_bounds(b, 0, true);
    lemma_traces_after(b, next_anchor(b, 0, true));
    assert forall|i: int, j: int| 0 <= i < j < traces(b).len() implies (#[trigger] traces(
        b,
    )[i]).span.0 < (#[trigger] traces(b)[j]).span.0 by {
        assert(traces(b)[i].wf());
        assert(traces(b)[i].span.1 <= traces(b)[j].span.0);
    }
}

/// True when no offset lies in both half-open ranges.
pub open spec fn disjoint(x: (nat, nat), y: (nat, nat)) -> bool {
    x.1 <= y.0 || y.1 <= x.0
}

/// The regions of two different traces read from a text do not overlap.
pub proof fn lemma_spans_disjoint(b: Seq<u8>)
    ensures
        forall|i: int, j: int|
            0 <= i < traces(b).len() && 0 <= j < traces(b).len() && i != j ==> disjoint(
                (#[trigger] traces(b)[i]).span,
                (#[trigger] traces(b)[j]).span,
            ),
{
    lemma_next_anchor_bounds(b, 0, true);
    lemma_traces_after(b, next_anchor(b, 0, true));
    assert forall|i: int, j: int|
        0 <= i < traces(b).len() && 0 <= j < traces(b).len() && i != j implies disjoint(
        (#[trigger] traces(b)[i]).span,
        (#[trigger] traces(b)[j]).span,
    ) by {
        if i < j {
            assert(traces(b)[i].span.1 <= traces(b)[j].span.0);
        } else {
            assert(traces(b)[j].span.1 <= traces(b)[i].span.0);
        }
    }
}

/// What is read from a text depends on nothing but the text.
pub proof fn lemma_same_text_same_traces(x: &str, y: &str)
    requires
        x@ == y@,
    ensures
        traces(bytes(x)) == traces(bytes(y)),
{
}

/// An empty text holds no trace.
pub proof fn lemma_empty_text_no_traces(b: Seq<u8>)
    requires
        b.len() == 0,
    ensures
        traces(b) == Seq::<TraceView>::empty(),
{
}

/// The views of a sequence of traces, in order.
pub open spec fn trace_views(traces: Seq<StackTrace>) -> Seq<TraceView> {
    traces.map_values(|t: StackTrace| t@)
}

/// Offset of the first anchor of `input` at or after the line at `pos`.
fn find_anchor(input: &str, pos: usize, bare: bool) -> (r: usize)
    requires
        pos <= bytes(input).len(),
        clean_cut(bytes(input), pos as int),
    ensures
        r == next_anchor(bytes(input), pos as int, bare),
        pos <= r <= bytes(input).len(),
        clean_cut(bytes(input), r as int),
{
    let n = input.as_bytes().len();
    let mut at = pos;
    while at < n
        invariant
            pos <= at <= n,
            n == bytes(input).len(),
            clean_cut(bytes(input), at as int),
            next_anchor(bytes(input), pos as int, bare) == next_anchor(
                bytes(input),
                at as int,
                bare,
            ),
        decreases n - at,
    {
        let (line, next) = cut_line(input, at);
        if thread_header(line) || panic_header(line) || node_opening(input, at, line, next) {
            return at;
        }
        if bare && parse_rust_frame(line).is_some() {
            return at;
        }
        at = next;
    }
    at
}

/// Reads the region that opens at the anchor `a`, and tells where it ends.
fn read_region(input: &str, a: usize) -> (r: (Option<StackTrace>, usize))
    requires
        a < bytes(input).len(),
        clean_cut(bytes(input), a as int),
    ensures
        r.1 == region_end(bytes(input), a as int),
        a < r.1 <= bytes(input).len(),
        clean_cut(bytes(input), r.1 as int),
        opt_trace(r.0) == region_trace(
            bytes(input).subrange(a as int, r.1 as int),
            a as nat,
        ),
{
    let (_, next) = cut_line(input, a);
    let end = find_anchor(input, next, false);
    let region = slice(input, a, end);
    (parse_region(region, a), end)
}

impl StackTrace {
    /// Reads every trace that `input` holds, in the order in which they
    /// stand in it.
    ///
    /// Every trace has at least one frame, and its frames are sound.
    /// The spans of the traces lie inside `input`, stand in the order of the
    /// traces, and do not overlap. An empty text holds no trace.
    pub fn parse_multiple(input: &str) -> (r: Vec<StackTrace>)
        ensures
            trace_views(r@) == traces(bytes(input)),
            forall|i: int| 0 <= i < r.len() ==> (#[trigger] r[i])@.wf(),
            forall|i: int| 0 <= i < r.len() ==> (#[trigger] r[i]).span.end <= bytes(input).len(),
            forall|i: int, j: int|
                0 <= i < j < r.len() ==> (#[trigger] r[i]).span.end <= (#[trigger] r[j]).span.start,
            bytes(input).len() == 0 ==> r.len() == 0,
    {
        let n = input.as_bytes().len();
        let mut out: Vec<StackTrace> = Vec::new();
        let mut a = find_anchor(input, 0, true);
        assert(trace_views(out@) =~= Seq::empty());
        while a < n
            invariant
                a <= n,
                n == bytes(input).len(),
                clean_cut(bytes(input), a as int),
                traces(bytes(input)) == trace_views(out@) + traces_after(bytes(input), a as int),
            decreases n - a,
        {
            let ghost before = trace_views(out@);
            let ghost b = bytes(input);
            let (found, end) = read_region(input, a);
            match found {
                Some(trace) => {
                    proof {
                        assert(trace_views(out@.push(trace)) =~= before.push(trace@));
                        assert(before + (seq![trace@] + traces_after(b, end as int))
                            =~= before.push(trace@) + traces_after(b, end as int));
                    }
                    out.push(trace);
                },
                None => {},
            }
            a = end;
        }
        proof {
            let b = bytes(input);
            assert(trace_views(out@) + Seq::<TraceView>::empty() =~= trace_views(out@));
            lemma_next_anchor_bounds(b, 0, true);
            lemma_traces_after(b, next_anchor(b, 0, true));
            assert forall|i: int| 0 <= i < out.len() implies (#[trigger] out[i])@.wf()
                && out[i].span.end <= b.len() by {
                assert(out[i]@ == trace_views(out@)[i]);
            }
            assert forall|i: int, j: int| 0 <= i < j < out.len() implies (#[trigger] out[i]).span.end
                <= (#[trigger] out[j]).span.start by {
                assert(out[i]@ == trace_views(out@)[i]);
                assert(out[j]@ == trace_views(out@)[j]);
            }
        }
        out
    }

    /// Reads the first trace that `input` holds. The trace is well formed.
    pub fn parse(input: &str) -> (r: Option<StackTrace>)
        ensures
            match r {
                Some(trace) => traces(bytes(input)).len() > 0 && trace@ == traces(
                    bytes(input),
                )[0] && trace@.wf(),
                None => traces(bytes(input)).len() == 0,
            },
    {
        let n = input.as_bytes().len();
        let mut a = find_anchor(input, 0, true);
        while a < n
            invariant
                a <= n,
                n == bytes(input).len(),
                clean_cut(bytes(input), a as int),
                traces(bytes(input)) == traces_after(bytes(input), a as int),
            decreases n - a,
        {
            let (found, end) = read_region(input, a);
            match found {
                Some(trace) => {
                    proof {
                        let b = bytes(input);
                        lemma_next_anchor_bounds(b, 0, true);
                        lemma_traces_after(b, next_anchor(b, 0, true));
                        assert(traces(b)[0] == trace@);
                    }
                    return Some(trace);
                },
                None => {},
            }
            a = end;
        }
        None
    }
}

} // verus!
