//! Reading the frames of a trace region line by line.
//!
//! A region is scanned once, top to bottom. Lines that are no frame are
//! passed over. Once a frame has been read, a blank line ends the list
//! unless the next line that is not blank carries the list on.

use crate::frame::{frame_of, frame_views, opt_frame, Frame, FrameView, TraceFormat};
use crate::go_trace::{
    go_function, go_location, goroutine_line, is_goroutine, read_go_function, read_go_location,
};
use crate::lines::{
    cut_line, lemma_next_line_advances, line_at, line_end, next_line,
};
use crate::node_trace::{node_frame, parse_node_frame};
use crate::rust_trace::{parse_rust_frame, rust_frame};
use crate::location::lemma_located_wf;
use crate::site::{after_at, call_split, word_split};
use crate::text::{
    blank, bytes, clean_cut, is_blank, lemma_seek, lemma_seek_back, occurs_at, slice, stands_in,
    trimmed,
};
use vstd::prelude::*;

verus! {

/// The frame that an `at` line stands for in a trace of the given runtime.
/// Go traces have no such lines.
pub open spec fn at_frame(format: TraceFormat, line: Seq<u8>) -> Option<FrameView> {
    match format {
        TraceFormat::Rust => rust_frame(line),
        TraceFormat::NodeJs => node_frame(line),
        TraceFormat::Go => None,
    }
}

/// The Go frame that starts at the line at `pos`, if one does, and the
/// offset of the line after it.
pub open spec fn take_go_frame(r: Seq<u8>, pos: int) -> Option<(FrameView, int)> {
    let line = line_at(r, pos);
    let next = next_line(r, pos);
    match go_function(line) {
        None => None,
        Some(name) => {
            let place = if next < r.len() {
                go_location(line_at(r, next))
            } else {
                None
            };
            match place {
                Some((file, n)) => Some(
                    (
                        frame_of(
                            TraceFormat::Go,
                            name,
                            Some(file),
                            Some(n),
                            None,
                            r.subrange(pos, line_end(r, next)),
                        ),
                        next_line(r, next),
                    ),
                ),
                None => Some((frame_of(TraceFormat::Go, name, None, None, None, line), next)),
            }
        },
    }
}

/// The frame that starts at the line at `pos`, if one does, and the offset
/// of the line after it.
///
/// In a Go trace a frame is a function line, together with the line after
/// it if that is a location line; a function line without one makes a frame
/// without a location.
pub open spec fn take_frame(format: TraceFormat, r: Seq<u8>, pos: int) -> Option<
    (FrameView, int),
> {
    match format {
        TraceFormat::Go => take_go_frame(r, pos),
        _ => match at_frame(format, line_at(r, pos)) {
            Some(f) => Some((f, next_line(r, pos))),
            None => None,
        },
    }
}

/// True for a line that carries a list of frames on across blank lines: a
/// frame line, or in a Go trace the opening line of a goroutine's section.
pub open spec fn continues(format: TraceFormat, line: Seq<u8>) -> bool {
    match format {
        TraceFormat::Go => go_function(line) is Some || is_goroutine(line),
        _ => at_frame(format, line) is Some,
    }
}

/// Offset of the first line at or after `pos` that is not blank (the length
/// of the text if there is none).
pub open spec fn skip_blank(r: Seq<u8>, pos: int) -> int
    decreases r.len() - pos,
{
    if 0 <= pos < r.len() && blank(line_at(r, pos)) {
        proof {
            lemma_next_line_advances(r, pos);
        }
        skip_blank(r, next_line(r, pos))
    } else {
        pos
    }
}

/// A frame ends after the line it starts on.
pub proof fn lemma_take_frame_advances(format: TraceFormat, r: Seq<u8>, pos: int)
    requires
        0 <= pos < r.len(),
    ensures
        take_frame(format, r, pos) matches Some((_, after)) ==> pos < after <= r.len()
            && clean_cut(r, after),
{
    lemma_next_line_advances(r, pos);
    if next_line(r, pos) < r.len() {
        lemma_next_line_advances(r, next_line(r, pos));
    }
}

/// Skipping blank lines never moves backwards or past the end.
pub proof fn lemma_skip_blank_bounds(r: Seq<u8>, pos: int)
    requires
        0 <= pos <= r.len(),
        clean_cut(r, pos),
    ensures
        pos <= skip_blank(r, pos) <= r.len(),
        clean_cut(r, skip_blank(r, pos)),
    decreases r.len() - pos,
{
    if pos < r.len() && blank(line_at(r, pos)) {
        lemma_next_line_advances(r, pos);
        lemma_skip_blank_bounds(r, next_line(r, pos));
    }
}

/// The frames of the lines from `pos` on. `seen` tells whether a frame has
/// been read before `pos`.
pub open spec fn frames_from(format: TraceFormat, r: Seq<u8>, pos: int, seen: bool) -> Seq<
    FrameView,
>
    decreases r.len() - pos,
{
    if pos < 0 || pos >= r.len() {
        Seq::empty()
    } else {
        match take_frame(format, r, pos) {
            Some((frame, after)) => {
                proof {
                    lemma_take_frame_advances(format, r, pos);
                }
                seq![frame] + frames_from(format, r, after, true)
            },
            None => {
                proof {
                    lemma_next_line_advances(r, pos);
                    lemma_skip_blank_bounds(r, next_line(r, pos));
                }
                if seen && blank(line_at(r, pos)) {
                    let resume = skip_blank(r, next_line(r, pos));
                    if resume < r.len() && continues(format, line_at(r, resume)) {
                        frames_from(format, r, resume, true)
                    } else {
                        Seq::empty()
                    }
                } else {
                    frames_from(format, r, next_line(r, pos), seen)
                }
            },
        }
    }
}

/// A frame read from a line is sound.
pub proof fn lemma_take_frame_wf(format: TraceFormat, r: Seq<u8>, pos: int)
    requires
        0 <= pos < r.len(),
    ensures
        take_frame(format, r, pos) matches Some((frame, _)) ==> frame.sound(format),
{
    let line = line_at(r, pos);
    match format {
        TraceFormat::Go => {
            let t = trimmed(line);
            lemma_seek_back(t, '(' as u8, t.len() as int);
        },
        _ => {
            match after_at(line) {
                Some(rest) => {
                    match call_split(rest) {
                        Some((_, cite)) => lemma_located_wf(cite),
                        None => {},
                    }
                    match word_split(rest) {
                        Some((_, cite)) => lemma_located_wf(cite),
                        None => {},
                    }
                    lemma_located_wf(rest);
                },
                None => {},
            }
        },
    }
}

/// Every frame read from a region is sound.
pub proof fn lemma_frames_wf(format: TraceFormat, r: Seq<u8>, pos: int, seen: bool)
    ensures
        forall|j: int|
            0 <= j < frames_from(format, r, pos, seen).len() ==> (#[trigger] frames_from(
                format,
                r,
                pos,
                seen,
            )[j]).sound(format),
    decreases r.len() - pos,
{
    let all = frames_from(format, r, pos, seen);
    if 0 <= pos < r.len() {
        lemma_take_frame_advances(format, r, pos);
        lemma_take_frame_wf(format, r, pos);
        lemma_next_line_advances(r, pos);
        lemma_skip_blank_bounds(r, next_line(r, pos));
        match take_frame(format, r, pos) {
            Some((frame, after)) => {
                lemma_frames_wf(format, r, after, true);
                let rest = frames_from(format, r, after, true);
                assert(all == seq![frame] + rest);
                assert forall|j: int| 0 <= j < all.len() implies (#[trigger] all[j]).sound(
                    format,
                ) by {
                    if j > 0 {
                        assert(all[j] == rest[j - 1]);
                    }
                }
            },
            None => {
                let resume = skip_blank(r, next_line(r, pos));
                if seen && blank(line_at(r, pos)) {
                    if resume < r.len() && continues(format, line_at(r, resume)) {
                        lemma_frames_wf(format, r, resume, true);
                        assert(all == frames_from(format, r, resume, true));
                    } else {
                        assert(all == Seq::<FrameView>::empty());
                    }
                } else {
                    lemma_frames_wf(format, r, next_line(r, pos), seen);
                    assert(all == frames_from(format, r, next_line(r, pos), seen));
                }
            },
        }
    } else {
        assert(all == Seq::<FrameView>::empty());
    }
}

/// The raw text of a frame is the text of the lines it was read from.
pub proof fn lemma_take_frame_raw(format: TraceFormat, r: Seq<u8>, pos: int)
    requires
        0 <= pos < r.len(),
    ensures
        take_frame(format, r, pos) matches Some((frame, after)) ==> occurs_at(r, frame.raw, pos)
            && pos + frame.raw.len() <= after,
{
    lemma_next_line_advances(r, pos);
    let next = next_line(r, pos);
    if next < r.len() {
        lemma_next_line_advances(r, next);
    }
    match take_frame(format, r, pos) {
        Some((frame, after)) => {
            assert(r.subrange(pos, pos + frame.raw.len()) =~= frame.raw);
        },
        None => {},
    }
}

/// The raw text of every frame read from the lines from `pos` on stands in
/// the region, at or after `pos`.
pub proof fn lemma_frames_raw(format: TraceFormat, r: Seq<u8>, pos: int, seen: bool)
    requires
        0 <= pos,
    ensures
        forall|j: int|
            0 <= j < frames_from(format, r, pos, seen).len() ==> stands_in(
                (#[trigger] frames_from(format, r, pos, seen)[j]).raw,
                r,
                pos,
                r.len() as int,
            ),
    decreases r.len() - pos,
{
    let all = frames_from(format, r, pos, seen);
    if pos < r.len() {
        lemma_take_frame_advances(format, r, pos);
        lemma_take_frame_raw(format, r, pos);
        lemma_next_line_advances(r, pos);
        lemma_skip_blank_bounds(r, next_line(r, pos));
        let rest = match take_frame(format, r, pos) {
            Some((frame, after)) => {
                lemma_frames_raw(format, r, after, true);
                assert(all == seq![frame] + frames_from(format, r, after, true));
                frames_from(format, r, after, true)
            },
            None => {
                let resume = skip_blank(r, next_line(r, pos));
                if seen && blank(line_at(r, pos)) {
                    if resume < r.len() && continues(format, line_at(r, resume)) {
                        lemma_frames_raw(format, r, resume, true);
                        frames_from(format, r, resume, true)
                    } else {
                        Seq::empty()
                    }
                } else {
                    lemma_frames_raw(format, r, next_line(r, pos), seen);
                    frames_from(format, r, next_line(r, pos), seen)
                }
            },
        };
        assert forall|j: int| 0 <= j < all.len() implies stands_in(
            (#[trigger] all[j]).raw,
            r,
            pos,
            r.len() as int,
        ) by {
            if take_frame(format, r, pos) is Some && j == 0 {
                assert(occurs_at(r, all[0].raw, pos));
            } else {
                let i = if take_frame(format, r, pos) is Some {
                    j - 1
                } else {
                    j
                };
                assert(all[j] == rest[i]);
                let k = choose|k: int|
                    pos <= k && k + rest[i].raw.len() <= r.len() && #[trigger] occurs_at(
                        r,
                        rest[i].raw,
                        k,
                    );
                assert(occurs_at(r, all[j].raw, k));
            }
        }
    } else {
        assert(all == Seq::<FrameView>::empty());
    }
}

/// How many of the lines from `pos` on are `at` frame lines of the given runtime.
pub open spec fn count_frames(format: TraceFormat, r: Seq<u8>, pos: int) -> nat
    decreases r.len() - pos,
{
    if pos < 0 || pos >= r.len() {
        0
    } else {
        proof {
            lemma_next_line_advances(r, pos);
        }
        let here: nat = if at_frame(format, line_at(r, pos)) is Some {
            1
        } else {
            0
        };
        here + count_frames(format, r, next_line(r, pos))
    }
}

/// Reads an `at` line as a frame of the given runtime.
pub fn read_at_frame(format: TraceFormat, line: &str) -> (r: Option<Frame>)
    ensures
        opt_frame(r) == at_frame(format, bytes(line)),
{
    match format {
        TraceFormat::Rust => parse_rust_frame(line),
        TraceFormat::NodeJs => parse_node_frame(line),
        TraceFormat::Go => None,
    }
}

/// Reads the Go frame that starts at `pos`, whose line and the offset after
/// it have been cut already.
fn read_go_frame(region: &str, pos: usize, line: &str, next: usize) -> (r: Option<(Frame, usize)>)
    requires
        pos < bytes(region).len(),
        clean_cut(bytes(region), pos as int),
        bytes(line) == line_at(bytes(region), pos as int),
        next == next_line(bytes(region), pos as int),
    ensures
        match r {
            Some((frame, after)) => take_go_frame(bytes(region), pos as int) == Some(
                (frame@, after as int),
            ),
            None => take_go_frame(bytes(region), pos as int) is None,
        },
{
    let ghost b = bytes(region);
    proof {
        lemma_next_line_advances(b, pos as int);
    }
    let name = match read_go_function(line) {
        Some(name) => name,
        None => { return None; },
    };
    if next < region.as_bytes().len() {
        let (second, after) = cut_line(region, next);
        proof {
            lemma_next_line_advances(b, next as int);
        }
        match read_go_location(second) {
            Some((file, n)) => {
                let end = next + second.as_bytes().len();
                proof {
                    lemma_seek(b, '\n' as u8, next as int);
                    assert(end == line_end(b, next as int));
                }
                let raw = slice(region, pos, end);
                let frame = Frame::new(TraceFormat::Go, name, Some(file), Some(n), None, raw);
                return Some((frame, after));
            },
            None => {},
        }
    }
    let frame = Frame::new(TraceFormat::Go, name, None, None, None, line);
    Some((frame, next))
}

/// Reads the frame that starts at `pos`, whose line and the offset after it
/// have been cut already.
fn read_frame(format: TraceFormat, region: &str, pos: usize, line: &str, next: usize) -> (r:
    Option<(Frame, usize)>)
    requires
        pos < bytes(region).len(),
        clean_cut(bytes(region), pos as int),
        bytes(line) == line_at(bytes(region), pos as int),
        next == next_line(bytes(region), pos as int),
    ensures
        match r {
            Some((frame, after)) => take_frame(format, bytes(region), pos as int) == Some(
                (frame@, after as int),
            ),
            None => take_frame(format, bytes(region), pos as int) is None,
        },
{
    match format {
        TraceFormat::Go => read_go_frame(region, pos, line, next),
        _ => match read_at_frame(format, line) {
            Some(frame) => Some((frame, next)),
            None => None,
        },
    }
}

/// Tells whether a line carries a list of frames on across blank lines.
fn carries_on(format: TraceFormat, line: &str) -> (r: bool)
    ensures
        r == continues(format, bytes(line)),
{
    match format {
        TraceFormat::Go => read_go_function(line).is_some() || goroutine_line(line),
        _ => read_at_frame(format, line).is_some(),
    }
}

/// Offset of the first line of `region` at or after `pos` that is not blank.
fn skip_blank_lines(region: &str, pos: usize) -> (r: usize)
    requires
        pos <= bytes(region).len(),
        clean_cut(bytes(region), pos as int),
    ensures
        r == skip_blank(bytes(region), pos as int),
        pos <= r <= bytes(region).len(),
        clean_cut(bytes(region), r as int),
{
    let n = region.as_bytes().len();
    let mut at = pos;
    while at < n
        invariant
            pos <= at <= n,
            n == bytes(region).len(),
            clean_cut(bytes(region), at as int),
            skip_blank(bytes(region), pos as int) == skip_blank(bytes(region), at as int),
        decreases n - at,
    {
        let (line, next) = cut_line(region, at);
        if !is_blank(line.as_bytes()) {
            return at;
        }
        at = next;
    }
    at
}

/// Reads the frames of `region` from the line at `start` on.
pub(crate) fn extract_frames(format: TraceFormat, region: &str, start: usize) -> (r: Vec<Frame>)
    requires
        start <= bytes(region).len(),
        clean_cut(bytes(region), start as int),
    ensures
        frame_views(r@) == frames_from(format, bytes(region), start as int, false),
{
    let n = region.as_bytes().len();
    let mut out: Vec<Frame> = Vec::new();
    let mut pos = start;
    let mut seen = false;
    assert(frame_views(out@) =~= Seq::empty());
    while pos < n
        invariant
            pos <= n,
            n == bytes(region).len(),
            clean_cut(bytes(region), pos as int),
            frames_from(format, bytes(region), start as int, false) == frame_views(out@)
                + frames_from(format, bytes(region), pos as int, seen),
        decreases n - pos,
    {
        let ghost b = bytes(region);
        let ghost before = frame_views(out@);
        let (line, next) = cut_line(region, pos);
        proof {
            lemma_take_frame_advances(format, b, pos as int);
        }
        match read_frame(format, region, pos, line, next) {
            Some((frame, after)) => {
                proof {
                    assert(frame_views(out@.push(frame)) =~= before.push(frame@));
                    assert(before + (seq![frame@] + frames_from(format, b, after as int, true))
                        =~= before.push(frame@) + frames_from(format, b, after as int, true));
                }
                out.push(frame);
                pos = after;
                seen = true;
            },
            None => {
                if seen && is_blank(line.as_bytes()) {
                    let resume = skip_blank_lines(region, next);
                    let go_on = if resume < n {
                        let (ahead, _) = cut_line(region, resume);
                        carries_on(format, ahead)
                    } else {
                        false
                    };
                    if go_on {
                        pos = resume;
                    } else {
                        assert(before + Seq::<FrameView>::empty() =~= before);
                        return out;
                    }
                } else {
                    pos = next;
                }
            },
        }
    }
    assert(frame_views(out@) + Seq::<FrameView>::empty() =~= frame_views(out@));
    out
}

/// Counts the `at` frame lines of the given runtime from the line at `start` on.
pub(crate) fn count_at_frames(format: TraceFormat, region: &str, start: usize) -> (r: usize)
    requires
        start <= bytes(region).len(),
        clean_cut(bytes(region), start as int),
    ensures
        r == count_frames(format, bytes(region), start as int),
{
    let n = region.as_bytes().len();
    let mut count: usize = 0;
    let mut pos = start;
    while pos < n
        invariant
            start <= pos <= n,
            n == bytes(region).len(),
            clean_cut(bytes(region), pos as int),
            count <= pos - start,
            count_frames(format, bytes(region), start as int) == count + count_frames(
                format,
                bytes(region),
                pos as int,
            ),
        decreases n - pos,
    {
        let (line, next) = cut_line(region, pos);
        if read_at_frame(format, line).is_some() {
            count += 1;
        }
        pos = next;
    }
    count
}

} // verus!
