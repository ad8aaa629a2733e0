//! Laying a trace out for display.
//!
//! The output for a trace is put together from pieces of text, each with
//! the style it is to be shown in. [`Formatter::layout`] decides the pieces;
//! [`render`] has the styled ones painted and joins them all.

use crate::frame::{Frame, TraceFormat};
use crate::numeral::{numeral, pad_left, padded, write_number};
use crate::region::StackTrace;
use crate::style::{disable_colors, paint, Hue, Tint};
use vstd::prelude::*;
use vstd::string::*;

verus! {

/// How traces are to be displayed.
#[derive(Clone, Copy, Debug)]
pub struct Formatter {
    use_color: bool,
    filter_stdlib: bool,
    context_lines: usize,
}

/// The lines of a source file that was read for its excerpts.
#[derive(Clone, Debug, PartialEq, Eq)]
pub struct SourceFile {
    /// The path as the frames cite it.
    pub path: String,
    /// The lines of the file, without their line ends.
    pub lines: Vec<String>,
}

/// A piece of output and the style to show it in.
#[derive(Clone, Debug, PartialEq, Eq)]
pub struct Piece {
    pub text: String,
    pub tint: Tint,
}

/// What a [`Piece`] stands for.
pub struct PieceView {
    pub text: Seq<char>,
    pub tint: Tint,
}

impl View for Piece {
    type V = PieceView;

    open spec fn view(&self) -> PieceView {
        PieceView { text: self.text@, tint: self.tint }
    }
}

/// The views of a sequence of pieces, in order.
pub open spec fn piece_views(pieces: Seq<Piece>) -> Seq<PieceView> {
    pieces.map_values(|p: Piece| p@)
}

/// The frames that a sequence of references points to, in order.
pub open spec fn referents(frames: Seq<&Frame>) -> Seq<Frame> {
    frames.map_values(|f: &Frame| *f)
}

/// The piece with the given text and style.
pub open spec fn piece(text: Seq<char>, tint: Tint) -> PieceView {
    PieceView { text, tint }
}

/// The name under which a runtime is shown.
pub open spec fn format_name(format: TraceFormat) -> Seq<char> {
    match format {
        TraceFormat::Rust => "Rust"@,
        TraceFormat::Go => "Go"@,
        TraceFormat::NodeJs => "Node.js"@,
    }
}

/// The two lines that open the display of a trace, and the empty line after them.
pub open spec fn heading(format: TraceFormat, message: Seq<char>) -> Seq<PieceView> {
    seq![
        piece("\n"@, Tint::Plain),
        piece("Stack Trace Format:"@, Tint::Bold),
        piece(" "@, Tint::Plain),
        piece(format_name(format), Tint::BoldColored(Hue::Cyan)),
        piece("\n"@, Tint::Plain),
        piece("Message:"@, Tint::Bold),
        piece(" "@, Tint::Plain),
        piece(message, Tint::Colored(Hue::Red)),
        piece("\n"@, Tint::Plain),
        piece("\n"@, Tint::Plain),
    ]
}

/// The frames to display: all of them, or with `filter` those that are not
/// library code.
pub open spec fn shown(frames: Seq<Frame>, filter: bool) -> Seq<Frame> {
    if filter {
        frames.filter(|f: Frame| !f.is_stdlib)
    } else {
        frames
    }
}

/// ` at <file>[:<line>[:<column>]]` for a frame that names a file.
pub open spec fn location_pieces(frame: Frame) -> Seq<PieceView> {
    match frame.file {
        None => Seq::empty(),
        Some(file) => {
            let at = seq![piece(" at "@, Tint::Plain), piece(file@, Tint::Colored(Hue::Green))];
            match frame.line {
                None => at,
                Some(line) => {
                    let to_line = at + seq![
                        piece(":"@, Tint::Plain),
                        piece(numeral(line as nat), Tint::Colored(Hue::Blue)),
                    ];
                    match frame.column {
                        None => to_line,
                        Some(column) => to_line + seq![
                            piece(":"@, Tint::Plain),
                            piece(numeral(column as nat), Tint::Colored(Hue::Blue)),
                        ],
                    }
                },
            }
        },
    }
}

/// The line that displays a frame: its number among the frames displayed,
/// its function, and its location if it has one.
pub open spec fn frame_row(index: nat, frame: Frame) -> Seq<PieceView> {
    seq![
        piece("  "@, Tint::Plain),
        piece("#"@ + numeral(index), Tint::Colored(Hue::BrightBlack)),
        piece(" "@, Tint::Plain),
        piece(frame.function@, Tint::BoldColored(Hue::Yellow)),
    ] + location_pieces(frame) + seq![piece("\n"@, Tint::Plain)]
}

/// Number of the first line of the excerpt around `line` with `k` lines of
/// context: `line - k`, but at least one.
pub open spec fn first_shown(line: nat, k: nat) -> nat {
    if line > k {
        (line - k) as nat
    } else {
        1
    }
}

/// Number of the last line of the excerpt around `line` with `k` lines of
/// context, in a file of `total` lines: `line + k`, but at most `total`.
pub open spec fn last_shown(total: nat, line: nat, k: nat) -> nat {
    if line + k < total {
        line + k
    } else {
        total
    }
}

/// The line that displays one line of a source file. The line that a frame
/// cites stands out from its context.
pub open spec fn context_row(number: nat, text: Seq<char>, cited: bool) -> Seq<PieceView> {
    seq![
        piece("    "@, Tint::Plain),
        piece(
            padded(numeral(number), 4),
            if cited {
                Tint::BoldColored(Hue::Red)
            } else {
                Tint::Colored(Hue::BrightBlack)
            },
        ),
        piece(" "@, Tint::Plain),
        piece(
            text,
            if cited {
                Tint::BoldColored(Hue::White)
            } else {
                Tint::Colored(Hue::BrightBlack)
            },
        ),
        piece("\n"@, Tint::Plain),
    ]
}

/// The excerpt of `lines` around `line`, from the line numbered `number` on.
pub open spec fn context_rows(lines: Seq<String>, line: nat, k: nat, number: nat) -> Seq<
    PieceView,
>
    decreases lines.len() + 1 - number,
{
    if number < 1 || number > last_shown(lines.len(), line, k) {
        Seq::empty()
    } else {
        context_row(number, lines[number - 1]@, number == line) + context_rows(
            lines,
            line,
            k,
            number + 1,
        )
    }
}

/// The first of the source files from index `i` on that has the given path.
pub open spec fn lookup(sources: Seq<SourceFile>, path: Seq<char>, i: int) -> Option<SourceFile>
    decreases sources.len() - i,
{
    if i < 0 || i >= sources.len() {
        None
    } else if sources[i].path@ == path {
        Some(sources[i])
    } else {
        lookup(sources, path, i + 1)
    }
}

/// The excerpt shown under a frame: with `k` lines of context asked for,
/// and for a frame that cites a line of a file that is among `sources`,
/// the lines numbered `max(1, line - k)` to `min(last, line + k)`.
pub open spec fn excerpt(frame: Frame, k: nat, sources: Seq<SourceFile>) -> Seq<PieceView> {
    if k > 0 && frame.file is Some && frame.line is Some {
        match lookup(sources, frame.file->0@, 0) {
            Some(source) => {
                let line = frame.line->0 as nat;
                context_rows(source.lines@, line, k, first_shown(line, k))
            },
            None => Seq::empty(),
        }
    } else {
        Seq::empty()
    }
}

/// The display of the frames from index `i` on, numbered by their index.
pub open spec fn rows(frames: Seq<Frame>, k: nat, sources: Seq<SourceFile>, i: int) -> Seq<
    PieceView,
>
    decreases frames.len() - i,
{
    if i < 0 || i >= frames.len() {
        Seq::empty()
    } else {
        frame_row(i as nat, frames[i]) + excerpt(frames[i], k, sources) + rows(
            frames,
            k,
            sources,
            i + 1,
        )
    }
}

/// The files that the frames name, in order, one entry for each frame that
/// names one.
pub open spec fn files(frames: Seq<Frame>) -> Seq<Seq<char>>
    decreases frames.len(),
{
    if frames.len() == 0 {
        Seq::empty()
    } else {
        let before = files(frames.drop_last());
        match frames.last().file {
            Some(file) => before.push(file@),
            None => before,
        }
    }
}

/// How many different files the frames name.
pub open spec fn unique_files(frames: Seq<Frame>) -> nat {
    files(frames).to_set().len()
}

/// The lines that close the display of a trace: how many frames it has,
/// how many of them are hidden if any may be, and how many different files
/// the frames displayed name.
pub open spec fn summary(total: nat, hidden: Option<nat>, unique: nat) -> Seq<PieceView> {
    seq![
        piece("\n"@, Tint::Plain),
        piece("Summary:"@, Tint::Bold),
        piece("\n"@, Tint::Plain),
        piece("  Total frames: "@, Tint::Plain),
        piece(numeral(total), Tint::Colored(Hue::Cyan)),
        piece("\n"@, Tint::Plain),
    ] + (match hidden {
        Some(n) => seq![
            piece("  Filtered frames: "@, Tint::Plain),
            piece(numeral(n), Tint::Colored(Hue::Yellow)),
            piece("\n"@, Tint::Plain),
        ],
        None => Seq::empty(),
    }) + seq![
        piece("  Unique files: "@, Tint::Plain),
        piece(numeral(unique), Tint::Colored(Hue::Green)),
        piece("\n"@, Tint::Plain),
    ]
}

/// The display of one trace.
pub open spec fn layout(filter: bool, k: nat, trace: StackTrace, sources: Seq<SourceFile>) -> Seq<
    PieceView,
> {
    let frames = shown(trace.frames@, filter);
    let hidden = if filter {
        Some((trace.frames@.len() - frames.len()) as nat)
    } else {
        None
    };
    heading(trace.format, trace.message@) + rows(frames, k, sources, 0) + summary(
        trace.frames@.len(),
        hidden,
        unique_files(frames),
    )
}

/// The rule drawn between two traces: eighty `=`.
pub open spec fn rule() -> Seq<char> {
    Seq::new(80, |i: int| '=')
}

/// The display of the traces from index `i` on, with a rule before each
/// but the first of all.
pub open spec fn layout_all(
    filter: bool,
    k: nat,
    traces: Seq<StackTrace>,
    sources: Seq<SourceFile>,
    i: int,
) -> Seq<PieceView>
    decreases traces.len() - i,
{
    if i < 0 || i >= traces.len() {
        Seq::empty()
    } else {
        let divider = if i > 0 {
            seq![piece("\n"@, Tint::Plain), piece(rule(), Tint::Plain), piece("\n"@, Tint::Plain)]
        } else {
            Seq::empty()
        };
        divider + layout(filter, k, traces[i], sources) + layout_all(
            filter,
            k,
            traces,
            sources,
            i + 1,
        )
    }
}

/// The files whose lines the display of a trace draws on: with context
/// asked for, the file of each frame displayed that cites a line.
pub open spec fn wanted(frames: Seq<Frame>, k: nat) -> Seq<Seq<char>>
    decreases frames.len(),
{
    if frames.len() == 0 {
        Seq::empty()
    } else {
        let before = wanted(frames.drop_last(), k);
        let frame = frames.last();
        if k > 0 && frame.file is Some && frame.line is Some {
            before.push(frame.file->0@)
        } else {
            before
        }
    }
}

/// All the texts one after the other.
pub open spec fn concat(texts: Seq<Seq<char>>) -> Seq<char>
    decreases texts.len(),
{
    if texts.len() == 0 {
        Seq::empty()
    } else {
        concat(texts.drop_last()) + texts.last()
    }
}

/// The texts of the pieces, in order.
pub open spec fn texts_of(pieces: Seq<PieceView>) -> Seq<Seq<char>> {
    pieces.map_values(|p: PieceView| p.text)
}

/// The views of a sequence of strings, in order.
pub open spec fn string_views(texts: Seq<String>) -> Seq<Seq<char>> {
    texts.map_values(|s: String| s@)
}

/// True when `painted` may be what painting `pieces` gave: one text for
/// each piece, and the piece's own text where it went unpainted, that is
/// where it is plain or colours are off.
pub open spec fn painted_from(painted: Seq<Seq<char>>, pieces: Seq<PieceView>, use_color: bool)
    -> bool {
    &&& painted.len() == pieces.len()
    &&& forall|i: int|
        0 <= i < pieces.len() && (!use_color || pieces[i].tint is Plain) ==> #[trigger] painted[i]
            == pieces[i].text
}

/// The notice printed in place of traces when a text holds none, followed
/// by the text itself.
pub open spec fn notice(input: Seq<char>) -> Seq<char> {
    "No stack traces detected. Original output:\n"@ + input + "\n"@
}

/// The filter decides which frames are displayed and nothing else. With
/// the filter off every frame is displayed. With the filter on, each frame
/// displayed is one of the frames of the trace, as it is, and is not library
/// code; and each frame of the trace that is not library code is displayed.
pub proof fn lemma_filter_only_hides(frames: Seq<Frame>)
    ensures
        shown(frames, false) == frames,
        shown(frames, true).len() <= frames.len(),
        forall|i: int|
            0 <= i < shown(frames, true).len() ==> frames.contains(#[trigger] shown(frames, true)[i])
                && !shown(frames, true)[i].is_stdlib,
        forall|i: int|
            0 <= i < frames.len() && !frames[i].is_stdlib ==> shown(frames, true).contains(
                #[trigger] frames[i],
            ),
{
    let keep = |f: Frame| !f.is_stdlib;
    frames.lemma_filter_len(keep);
    assert forall|i: int| 0 <= i < shown(frames, true).len() implies frames.contains(
        #[trigger] shown(frames, true)[i],
    ) && !shown(frames, true)[i].is_stdlib by {
        frames.lemma_filter_pred(keep, i);
        frames.lemma_filter_contains_rev(keep, shown(frames, true)[i]);
    }
    assert forall|i: int| 0 <= i < frames.len() && !frames[i].is_stdlib implies shown(
        frames,
        true,
    ).contains(#[trigger] frames[i]) by {
        frames.lemma_filter_contains(keep, i);
    }
}

/// The frames displayed keep the order of the frames of the trace: what is
/// displayed of the first `k` frames is the beginning of what is displayed
/// of them all.
pub proof fn lemma_shown_keeps_order(frames: Seq<Frame>, filter: bool, k: int)
    requires
        0 <= k <= frames.len(),
    ensures
        shown(frames.take(k), filter).len() <= shown(frames, filter).len(),
        shown(frames.take(k), filter) == shown(frames, filter).take(
            shown(frames.take(k), filter).len() as int,
        ),
    decreases frames.len() - k,
{
    reveal(Seq::filter);
    let all = shown(frames, filter);
    if k == frames.len() {
        assert(frames.take(k) =~= frames);
        assert(all.take(all.len() as int) =~= all);
    } else {
        lemma_shown_keeps_order(frames, filter, k + 1);
        let longer = shown(frames.take(k + 1), filter);
        let shorter = shown(frames.take(k), filter);
        assert(frames.take(k + 1).drop_last() =~= frames.take(k));
        assert(shorter =~= longer.take(shorter.len() as int));
        assert(shorter =~= all.take(shorter.len() as int));
    }
}

fn put(out: &mut Vec<Piece>, text: &str, tint: Tint)
    ensures
        piece_views(final(out)@) == piece_views(old(out)@).push(piece(text@, tint)),
{
    let item = Piece { text: text.to_owned(), tint };
    out.push(item);
    assert(piece_views(out@) =~= piece_views(old(out)@).push(piece(text@, tint)));
}

fn put_string(out: &mut Vec<Piece>, text: String, tint: Tint)
    ensures
        piece_views(final(out)@) == piece_views(old(out)@).push(piece(text@, tint)),
{
    let item = Piece { text, tint };
    out.push(item);
    assert(piece_views(out@) =~= piece_views(old(out)@).push(piece(text@, tint)));
}

fn format_label(format: TraceFormat) -> (r: &'static str)
    ensures
        r@ == format_name(format),
{
    match format {
        TraceFormat::Rust => "Rust",
        TraceFormat::Go => "Go",
        TraceFormat::NodeJs => "Node.js",
    }
}

fn put_heading(out: &mut Vec<Piece>, trace: &StackTrace)
    ensures
        piece_views(final(out)@) == piece_views(old(out)@) + heading(
            trace.format,
            trace.message@,
        ),
{
    put(out, "\n", Tint::Plain);
    put(out, "Stack Trace Format:", Tint::Bold);
    put(out, " ", Tint::Plain);
    put(out, format_label(trace.format), Tint::BoldColored(Hue::Cyan));
    put(out, "\n", Tint::Plain);
    put(out, "Message:", Tint::Bold);
    put(out, " ", Tint::Plain);
    put(out, trace.message.as_str(), Tint::Colored(Hue::Red));
    put(out, "\n", Tint::Plain);
    put(out, "\n", Tint::Plain);
    assert(piece_views(out@) =~= piece_views(old(out)@) + heading(trace.format, trace.message@));
}

fn put_location(out: &mut Vec<Piece>, frame: &Frame)
    ensures
        piece_views(final(out)@) == piece_views(old(out)@) + location_pieces(*frame),
{
    let ghost before = piece_views(out@);
    match &frame.file {
        None => {
            assert(before =~= before + location_pieces(*frame));
        },
        Some(file) => {
            put(out, " at ", Tint::Plain);
            put(out, file.as_str(), Tint::Colored(Hue::Green));
            match frame.line {
                None => {},
                Some(line) => {
                    put(out, ":", Tint::Plain);
                    put_string(out, write_number(line), Tint::Colored(Hue::Blue));
                    match frame.column {
                        None => {},
                        Some(column) => {
                            put(out, ":", Tint::Plain);
                            put_string(out, write_number(column), Tint::Colored(Hue::Blue));
                        },
                    }
                },
            }
            assert(piece_views(out@) =~= before + location_pieces(*frame));
        },
    }
}

fn put_frame_row(out: &mut Vec<Piece>, index: usize, frame: &Frame)
    ensures
        piece_views(final(out)@) == piece_views(old(out)@) + frame_row(index as nat, *frame),
{
    let ghost before = piece_views(out@);
    put(out, "  ", Tint::Plain);
    let mut label = "#".to_owned();
    label.append(write_number(index).as_str());
    put_string(out, label, Tint::Colored(Hue::BrightBlack));
    put(out, " ", Tint::Plain);
    put(out, frame.function.as_str(), Tint::BoldColored(Hue::Yellow));
    put_location(out, frame);
    put(out, "\n", Tint::Plain);
    assert(piece_views(out@) =~= before + frame_row(index as nat, *frame));
}

fn put_context_row(out: &mut Vec<Piece>, number: usize, text: &String, cited: bool)
    ensures
        piece_views(final(out)@) == piece_views(old(out)@) + context_row(
            number as nat,
            text@,
            cited,
        ),
{
    let ghost before = piece_views(out@);
    put(out, "    ", Tint::Plain);
    let label = pad_left(write_number(number).as_str(), 4);
    if cited {
        put_string(out, label, Tint::BoldColored(Hue::Red));
    } else {
        put_string(out, label, Tint::Colored(Hue::BrightBlack));
    }
    put(out, " ", Tint::Plain);
    if cited {
        put(out, text.as_str(), Tint::BoldColored(Hue::White));
    } else {
        put(out, text.as_str(), Tint::Colored(Hue::BrightBlack));
    }
    put(out, "\n", Tint::Plain);
    assert(piece_views(out@) =~= before + context_row(number as nat, text@, cited));
}

fn put_context(out: &mut Vec<Piece>, lines: &Vec<String>, line: usize, k: usize)
    ensures
        piece_views(final(out)@) == piece_views(old(out)@) + context_rows(
            lines@,
            line as nat,
            k as nat,
            first_shown(line as nat, k as nat),
        ),
{
    let ghost before = piece_views(out@);
    let total = lines.len();
    let first: usize = if line > k {
        line - k
    } else {
        1
    };
    let last: usize = if line < total && k < total - line {
        line + k
    } else {
        total
    };
    let ghost all = context_rows(lines@, line as nat, k as nat, first as nat);
    if first > last {
        assert(before + all =~= before);
        return ;
    }
    let mut number = first;
    while number <= last
        invariant
            1 <= first <= number <= last + 1,
            before == piece_views(old(out)@),
            first == first_shown(line as nat, k as nat),
            last == last_shown(lines@.len(), line as nat, k as nat),
            last <= lines@.len(),
            all == context_rows(lines@, line as nat, k as nat, first as nat),
            before + all == piece_views(out@) + context_rows(
                lines@,
                line as nat,
                k as nat,
                number as nat,
            ),
        decreases last + 1 - number,
    {
        let ghost sofar = piece_views(out@);
        let ghost row = context_row(number as nat, lines@[number - 1]@, number == line);
        let ghost rest = context_rows(lines@, line as nat, k as nat, (number + 1) as nat);
        put_context_row(out, number, &lines[number - 1], number == line);
        assert(sofar + (row + rest) =~= (sofar + row) + rest);
        if number == last {
            assert(rest =~= Seq::<PieceView>::empty());
            assert(piece_views(out@) + rest =~= piece_views(out@));
            return ;
        }
        number += 1;
    }
}

fn find_source<'a>(sources: &'a Vec<SourceFile>, path: &String) -> (r: Option<&'a SourceFile>)
    ensures
        match r {
            Some(source) => lookup(sources@, path@, 0) == Some(*source),
            None => lookup(sources@, path@, 0) is None,
        },
{
    let mut i: usize = 0;
    while i < sources.len()
        invariant
            i <= sources.len(),
            lookup(sources@, path@, 0) == lookup(sources@, path@, i as int),
        decreases sources.len() - i,
    {
        if sources[i].path == *path {
            return Some(&sources[i]);
        }
        i += 1;
    }
    None
}

fn put_excerpt(out: &mut Vec<Piece>, frame: &Frame, k: usize, sources: &Vec<SourceFile>)
    ensures
        piece_views(final(out)@) == piece_views(old(out)@) + excerpt(*frame, k as nat, sources@),
{
    let ghost before = piece_views(out@);
    if k > 0 {
        match (&frame.file, frame.line) {
            (Some(file), Some(line)) => {
                match find_source(sources, file) {
                    Some(source) => {
                        put_context(out, &source.lines, line, k);
                        return ;
                    },
                    None => {},
                }
            },
            _ => {},
        }
    }
    assert(before + excerpt(*frame, k as nat, sources@) =~= before);
}

fn put_summary(out: &mut Vec<Piece>, total: usize, hidden: Option<usize>, unique: usize)
    ensures
        piece_views(final(out)@) == piece_views(old(out)@) + summary(
            total as nat,
            match hidden {
                Some(n) => Some(n as nat),
                None => None,
            },
            unique as nat,
        ),
{
    let ghost before = piece_views(out@);
    put(out, "\n", Tint::Plain);
    put(out, "Summary:", Tint::Bold);
    put(out, "\n", Tint::Plain);
    put(out, "  Total frames: ", Tint::Plain);
    put_string(out, write_number(total), Tint::Colored(Hue::Cyan));
    put(out, "\n", Tint::Plain);
    match hidden {
        Some(n) => {
            put(out, "  Filtered frames: ", Tint::Plain);
            put_string(out, write_number(n), Tint::Colored(Hue::Yellow));
            put(out, "\n", Tint::Plain);
        },
        None => {},
    }
    put(out, "  Unique files: ", Tint::Plain);
    put_string(out, write_number(unique), Tint::Colored(Hue::Green));
    put(out, "\n", Tint::Plain);
    assert(piece_views(out@) =~= before + summary(
        total as nat,
        match hidden {
            Some(n) => Some(n as nat),
            None => None,
        },
        unique as nat,
    ));
}

/// The frames to display.
fn visible<'a>(frames: &'a Vec<Frame>, filter: bool) -> (r: Vec<&'a Frame>)
    ensures
        referents(r@) == shown(frames@, filter),
        r.len() <= frames.len(),
{
    let mut out: Vec<&Frame> = Vec::new();
    let mut i: usize = 0;
    proof {
        reveal(Seq::filter);
        assert(frames@.take(0) =~= Seq::<Frame>::empty());
        assert(referents(out@) =~= shown(frames@.take(0), filter));
    }
    while i < frames.len()
        invariant
            i <= frames.len(),
            out.len() <= i,
            referents(out@) == shown(frames@.take(i as int), filter),
        decreases frames.len() - i,
    {
        let frame = &frames[i];
        proof {
            reveal(Seq::filter);
            let next = frames@.take(i + 1);
            assert(next.drop_last() =~= frames@.take(i as int));
            assert(next.last() == frames@[i as int]);
            if !filter {
                assert(referents(out@.push(frame)) =~= next);
            } else if !frame.is_stdlib {
                assert(referents(out@.push(frame)) =~= shown(next, filter));
            }
        }
        if !filter || !frame.is_stdlib {
            out.push(frame);
        }
        i += 1;
    }
    assert(frames@.take(frames.len() as int) =~= frames@);
    out
}

fn holds(known: &Vec<&String>, file: &String) -> (r: bool)
    ensures
        r == string_refs(known@).contains(file@),
{
    let mut j: usize = 0;
    while j < known.len()
        invariant
            j <= known.len(),
            forall|t: int| 0 <= t < j ==> string_refs(known@)[t] != file@,
        decreases known.len() - j,
    {
        if *known[j] == *file {
            assert(string_refs(known@)[j as int] == file@);
            return true;
        }
        j += 1;
    }
    false
}

/// The views of the strings that a sequence of references points to.
pub open spec fn string_refs(texts: Seq<&String>) -> Seq<Seq<char>> {
    texts.map_values(|s: &String| s@)
}

fn count_files(frames: &Vec<&Frame>) -> (r: usize)
    ensures
        r == unique_files(referents(frames@)),
{
    let ghost all = referents(frames@);
    let mut known: Vec<&String> = Vec::new();
    let mut i: usize = 0;
    proof {
        assert(all.take(0) =~= Seq::<Frame>::empty());
        assert(string_refs(known@).to_set() =~= files(all.take(0)).to_set());
    }
    while i < frames.len()
        invariant
            i <= frames.len(),
            all == referents(frames@),
            string_refs(known@).no_duplicates(),
            string_refs(known@).to_set() == files(all.take(i as int)).to_set(),
        decreases frames.len() - i,
    {
        let ghost before = string_refs(known@);
        let ghost seen = files(all.take(i as int));
        proof {
            assert(all.take(i + 1).drop_last() =~= all.take(i as int));
            assert(all.take(i + 1).last() == *frames@[i as int]);
        }
        match &frames[i].file {
            Some(file) => {
                proof {
                    seen.lemma_push_to_set_commute(file@);
                    before.lemma_push_to_set_commute(file@);
                }
                if !holds(&known, file) {
                    known.push(file);
                    assert(string_refs(known@) =~= before.push(file@));
                } else {
                    assert(before.to_set().insert(file@) =~= before.to_set());
                }
            },
            None => {},
        }
        i += 1;
    }
    proof {
        assert(all.take(frames.len() as int) =~= all);
        string_refs(known@).unique_seq_to_set();
    }
    known.len()
}

/// The texts of `pieces` as they are to be printed: the styled ones painted
/// if `use_color` holds, every other one as it is.
pub fn paint_all(pieces: &Vec<Piece>, use_color: bool) -> (r: Vec<String>)
    ensures
        painted_from(string_views(r@), piece_views(pieces@), use_color),
{
    let mut out: Vec<String> = Vec::new();
    let mut i: usize = 0;
    while i < pieces.len()
        invariant
            i <= pieces.len(),
            out.len() == i,
            forall|j: int|
                0 <= j < i && (!use_color || pieces@[j].tint is Plain) ==> (#[trigger] out@[j])@
                    == pieces@[j].text@,
        decreases pieces.len() - i,
    {
        let item = &pieces[i];
        let text = if use_color {
            paint(item.text.as_str(), item.tint)
        } else {
            item.text.clone()
        };
        out.push(text);
        i += 1;
    }
    assert forall|j: int|
        0 <= j < piece_views(pieces@).len() && (!use_color || piece_views(pieces@)[j].tint
            is Plain) implies #[trigger] string_views(out@)[j] == piece_views(pieces@)[j].text by {
        assert(out@[j]@ == pieces@[j].text@);
    }
    out
}

/// Joins texts into one.
pub fn join(texts: &Vec<String>) -> (r: String)
    ensures
        r@ == concat(string_views(texts@)),
{
    let mut out = String::new();
    let mut i: usize = 0;
    assert(string_views(texts@).take(0) =~= Seq::<Seq<char>>::empty());
    while i < texts.len()
        invariant
            i <= texts.len(),
            out@ == concat(string_views(texts@).take(i as int)),
        decreases texts.len() - i,
    {
        proof {
            let all = string_views(texts@);
            assert(all.take(i + 1).drop_last() =~= all.take(i as int));
            assert(all.take(i + 1).last() == texts@[i as int]@);
        }
        out.append(texts[i].as_str());
        i += 1;
    }
    assert(string_views(texts@).take(texts.len() as int) =~= string_views(texts@));
    out
}

/// The text to print for `pieces`.
///
/// Whatever painting makes of the styled pieces, the result is the painted
/// texts one after the other, in the order of the pieces. With colours off
/// nothing is painted, and the result is the texts of the pieces themselves.
pub fn render(pieces: &Vec<Piece>, use_color: bool) -> (r: String)
    ensures
        exists|painted: Seq<Seq<char>>|
            painted_from(painted, piece_views(pieces@), use_color) && r@ == concat(painted),
        !use_color ==> r@ == concat(texts_of(piece_views(pieces@))),
{
    let painted = paint_all(pieces, use_color);
    let out = join(&painted);
    proof {
        if !use_color {
            assert(string_views(painted@) =~= texts_of(piece_views(pieces@)));
        }
    }
    out
}

/// The notice printed in place of traces when `input` holds none, followed
/// by `input` itself.
pub fn pass_through(input: &str) -> (r: String)
    ensures
        r@ == notice(input@),
{
    let mut out = "No stack traces detected. Original output:\n".to_owned();
    out.append(input);
    out.append("\n");
    out
}

impl Formatter {
    /// Whether styled pieces are painted.
    pub closed spec fn use_color(&self) -> bool {
        self.use_color
    }

    /// Whether frames of library code are hidden.
    pub closed spec fn filter_stdlib(&self) -> bool {
        self.filter_stdlib
    }

    /// How many lines of source are shown before and after a cited line.
    pub closed spec fn context_lines(&self) -> usize {
        self.context_lines
    }

    /// A formatter with the given settings. Without `use_color`, styling is
    /// switched off for the whole process as well.
    pub fn new(use_color: bool, filter_stdlib: bool, context_lines: usize) -> (r: Self)
        ensures
            r.use_color() == use_color,
            r.filter_stdlib() == filter_stdlib,
            r.context_lines() == context_lines,
    {
        if !use_color {
            disable_colors();
        }
        Formatter { use_color, filter_stdlib, context_lines }
    }

    /// The files whose lines [`Formatter::format`] shows excerpts of, to be
    /// handed to it as `sources`.
    pub fn wanted_files(&self, trace: &StackTrace) -> (r: Vec<String>)
        ensures
            string_views(r@) == wanted(
                shown(trace.frames@, self.filter_stdlib()),
                self.context_lines() as nat,
            ),
    {
        let frames = visible(&trace.frames, self.filter_stdlib);
        let ghost all = referents(frames@);
        let mut out: Vec<String> = Vec::new();
        let mut i: usize = 0;
        proof {
            assert(all.take(0) =~= Seq::<Frame>::empty());
            assert(string_views(out@) =~= wanted(all.take(0), self.context_lines as nat));
        }
        while i < frames.len()
            invariant
                i <= frames.len(),
                all == referents(frames@),
                string_views(out@) == wanted(all.take(i as int), self.context_lines as nat),
            decreases frames.len() - i,
        {
            let frame = frames[i];
            proof {
                assert(all.take(i + 1).drop_last() =~= all.take(i as int));
                assert(all.take(i + 1).last() == *frame);
            }
            if self.context_lines > 0 && frame.line.is_some() {
                match &frame.file {
                    Some(file) => {
                        let ghost before = string_views(out@);
                        out.push(file.clone());
                        assert(string_views(out@) =~= before.push(file@));
                    },
                    None => {},
                }
            }
            i += 1;
        }
        assert(all.take(frames.len() as int) =~= all);
        out
    }

    /// Lays one trace out for display.
    pub fn layout(&self, trace: &StackTrace, sources: &Vec<SourceFile>) -> (r: Vec<Piece>)
        ensures
            piece_views(r@) == layout(
                self.filter_stdlib(),
                self.context_lines() as nat,
                *trace,
                sources@,
            ),
    {
        let mut out: Vec<Piece> = Vec::new();
        self.put_layout(&mut out, trace, sources);
        assert(piece_views(Seq::<Piece>::empty()) =~= Seq::<PieceView>::empty());
        assert(Seq::<PieceView>::empty() + layout(
            self.filter_stdlib,
            self.context_lines as nat,
            *trace,
            sources@,
        ) =~= layout(self.filter_stdlib, self.context_lines as nat, *trace, sources@));
        out
    }

    fn put_layout(&self, out: &mut Vec<Piece>, trace: &StackTrace, sources: &Vec<SourceFile>)
        ensures
            piece_views(final(out)@) == piece_views(old(out)@) + layout(
                self.filter_stdlib,
                self.context_lines as nat,
                *trace,
                sources@,
            ),
    {
        let ghost before = piece_views(out@);
        let ghost k = self.context_lines as nat;
        let frames = visible(&trace.frames, self.filter_stdlib);
        let ghost all = referents(frames@);
        put_heading(out, trace);
        let ghost base = piece_views(out@);
        let mut i: usize = 0;
        while i < frames.len()
            invariant
                i <= frames.len(),
                all == referents(frames@),
                k == self.context_lines as nat,
                base + rows(all, k, sources@, 0) == piece_views(out@) + rows(
                    all,
                    k,
                    sources@,
                    i as int,
                ),
            decreases frames.len() - i,
        {
            let ghost sofar = piece_views(out@);
            let ghost row = frame_row(i as nat, all[i as int]);
            let ghost more = excerpt(all[i as int], k, sources@);
            let ghost rest = rows(all, k, sources@, i + 1);
            let frame = frames[i];
            put_frame_row(out, i, frame);
            put_excerpt(out, frame, self.context_lines, sources);
            assert(sofar + (row + more + rest) =~= ((sofar + row) + more) + rest);
            i += 1;
        }
        assert(piece_views(out@) + Seq::<PieceView>::empty() =~= piece_views(out@));
        let total = trace.frames.len();
        let hidden = if self.filter_stdlib {
            Some(total - frames.len())
        } else {
            None
        };
        let unique = count_files(&frames);
        put_summary(out, total, hidden, unique);
        assert(piece_views(out@) =~= before + layout(self.filter_stdlib, k, *trace, sources@));
    }

    /// Lays traces out for display, one after the other, with a rule
    /// between each two.
    pub fn layout_all(&self, traces: &Vec<StackTrace>, sources: &Vec<SourceFile>) -> (r: Vec<
        Piece,
    >)
        ensures
            piece_views(r@) == layout_all(
                self.filter_stdlib(),
                self.context_lines() as nat,
                traces@,
                sources@,
                0,
            ),
    {
        let ghost k = self.context_lines as nat;
        let ghost whole = layout_all(self.filter_stdlib, k, traces@, sources@, 0);
        let mut out: Vec<Piece> = Vec::new();
        let mut i: usize = 0;
        assert(piece_views(out@) + whole =~= whole);
        while i < traces.len()
            invariant
                i <= traces.len(),
                k == self.context_lines as nat,
                whole == piece_views(out@) + layout_all(
                    self.filter_stdlib,
                    k,
                    traces@,
                    sources@,
                    i as int,
                ),
            decreases traces.len() - i,
        {
            let ghost sofar = piece_views(out@);
            let ghost rest = layout_all(self.filter_stdlib, k, traces@, sources@, i + 1);
            let ghost this = layout(self.filter_stdlib, k, traces@[i as int], sources@);
            if i > 0 {
                put(&mut out, "\n", Tint::Plain);
                let mut line = String::new();
                let mut n: usize = 0;
                while n < 80
                    invariant
                        n <= 80,
                        line@ == Seq::new(n as nat, |j: int| '='),
                    decreases 80 - n,
                {
                    proof {
                        reveal_strlit("=");
                    }
                    line.append("=");
                    n += 1;
                    assert(line@ =~= Seq::new(n as nat, |j: int| '='));
                }
                put_string(&mut out, line, Tint::Plain);
                put(&mut out, "\n", Tint::Plain);
            }
            let ghost divided = piece_views(out@);
            self.put_layout(&mut out, &traces[i], sources);
            proof {
                let divider = if i > 0 {
                    seq![
                        piece("\n"@, Tint::Plain),
                        piece(rule(), Tint::Plain),
                        piece("\n"@, Tint::Plain),
                    ]
                } else {
                    Seq::empty()
                };
                assert(divided =~= sofar + divider);
                assert(sofar + (divider + this + rest) =~= ((sofar + divider) + this) + rest);
            }
            i += 1;
        }
        assert(piece_views(out@) + Seq::<PieceView>::empty() =~= piece_views(out@));
        out
    }

    /// The text that displays one trace.
    ///
    /// The trace is laid out as [`layout`] says, and the pieces are rendered
    /// as [`render`] says: with colours off, the result is the texts of the
    /// pieces one after the other.
    pub fn format(&self, trace: &StackTrace, sources: &Vec<SourceFile>) -> (r: String)
        ensures
            exists|painted: Seq<Seq<char>>|
                painted_from(
                    painted,
                    layout(self.filter_stdlib(), self.context_lines() as nat, *trace, sources@),
                    self.use_color(),
                ) && r@ == concat(painted),
            !self.use_color() ==> r@ == concat(
                texts_of(
                    layout(self.filter_stdlib(), self.context_lines() as nat, *trace, sources@),
                ),
            ),
    {
        let pieces = self.layout(trace, sources);
        render(&pieces, self.use_color)
    }

    /// The text that displays a sequence of traces.
    pub fn format_all(&self, traces: &Vec<StackTrace>, sources: &Vec<SourceFile>) -> (r: String)
        ensures
            exists|painted: Seq<Seq<char>>|
                painted_from(
                    painted,
                    layout_all(
                        self.filter_stdlib(),
                        self.context_lines() as nat,
                        traces@,
                        sources@,
                        0,
                    ),
                    self.use_color(),
                ) && r@ == concat(painted),
            !self.use_color() ==> r@ == concat(
                texts_of(
                    layout_all(
                        self.filter_stdlib(),
                        self.context_lines() as nat,
                        traces@,
                        sources@,
                        0,
                    ),
                ),
            ),
    {
        let pieces = self.layout_all(traces, sources);
        render(&pieces, self.use_color)
    }
}

} // verus!
