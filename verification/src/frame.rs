//! The uniform frame model shared by every recognised runtime.

use crate::text::{bytes, contains, includes, opt_bytes, prefixed, starts_with};
use vstd::prelude::*;
use vstd::utf8::*;

verus! {

/// The runtime a trace was emitted by.
#[derive(Clone, Copy, Debug, PartialEq, Eq, Structural)]
pub enum TraceFormat {
    Rust,
    Go,
    NodeJs,
}

/// One call site of a stack trace.
#[derive(Clone, Debug, PartialEq, Eq)]
pub struct Frame {
    /// The function as the runtime printed it.
    pub function: String,
    /// The source file, when the runtime named one.
    pub file: Option<String>,
    /// The line in `file`, counted from one.
    pub line: Option<usize>,
    /// The column in `line`, counted from one.
    pub column: Option<usize>,
    /// Whether the frame belongs to the runtime's own library or a vendor tree.
    pub is_stdlib: bool,
    /// The input text the frame was read from.
    pub raw: String,
}

/// What a [`Frame`] stands for: its texts as UTF-8 bytes, its numbers unbounded.
pub struct FrameView {
    pub function: Seq<u8>,
    pub file: Option<Seq<u8>>,
    pub line: Option<nat>,
    pub column: Option<nat>,
    pub is_stdlib: bool,
    pub raw: Seq<u8>,
}

/// The UTF-8 bytes of an owned string.
pub open spec fn string_bytes(s: String) -> Seq<u8> {
    encode_utf8(s@)
}

/// Texts with the same UTF-8 bytes are the same text, so that the view of a
/// frame tells its strings apart.
pub proof fn lemma_bytes_tell_texts_apart(a: Seq<char>, b: Seq<char>)
    requires
        encode_utf8(a) == encode_utf8(b),
    ensures
        a == b,
{
    encode_utf8_decode_utf8(a);
    encode_utf8_decode_utf8(b);
}

impl FrameView {
    /// A column is only known together with a line, a line only together
    /// with a file; the function is never empty and numbers count from one.
    pub open spec fn wf(self) -> bool {
        &&& self.function.len() > 0
        &&& (self.column is Some ==> self.line is Some)
        &&& (self.line is Some ==> self.file is Some)
        &&& (self.line matches Some(n) ==> n >= 1)
        &&& (self.column matches Some(n) ==> n >= 1)
    }
}

impl View for Frame {
    type V = FrameView;

    open spec fn view(&self) -> FrameView {
        FrameView {
            function: string_bytes(self.function),
            file: match self.file {
                Some(f) => Some(string_bytes(f)),
                None => None,
            },
            line: match self.line {
                Some(n) => Some(n as nat),
                None => None,
            },
            column: match self.column {
                Some(n) => Some(n as nat),
                None => None,
            },
            is_stdlib: self.is_stdlib,
            raw: string_bytes(self.raw),
        }
    }
}

/// The view of an optional frame.
pub open spec fn opt_frame(o: Option<Frame>) -> Option<FrameView> {
    match o {
        Some(f) => Some(f@),
        None => None,
    }
}

/// The views of a sequence of frames, in order.
pub open spec fn frame_views(frames: Seq<Frame>) -> Seq<FrameView> {
    frames.map_values(|f: Frame| f@)
}

/// True when `function` begins with one of the Rust library's crate paths.
pub open spec fn rust_library_function(function: Seq<u8>) -> bool {
    ||| prefixed(function, bytes("std::"))
    ||| prefixed(function, bytes("core::"))
    ||| prefixed(function, bytes("alloc::"))
    ||| prefixed(function, bytes("__rust_"))
}

/// True when `file` lies in the Rust library's source tree.
pub open spec fn rust_library_file(file: Seq<u8>) -> bool {
    ||| contains(file, bytes("/library/std/"))
    ||| contains(file, bytes("/library/core/"))
    ||| contains(file, bytes("/library/alloc/"))
    ||| contains(file, bytes("rustc/"))
}

/// True when `function` belongs to one of Go's runtime packages.
pub open spec fn go_library_function(function: Seq<u8>) -> bool {
    ||| prefixed(function, bytes("runtime."))
    ||| prefixed(function, bytes("reflect."))
}

/// True when `file` lies in Go's source tree.
pub open spec fn go_library_file(file: Seq<u8>) -> bool {
    ||| contains(file, bytes("/src/runtime/"))
    ||| contains(file, bytes("/usr/local/go/src/"))
    ||| contains(file, bytes("/go/src/"))
}

/// True when `file` is a Node.js internal module or an installed dependency.
pub open spec fn node_library_file(file: Seq<u8>) -> bool {
    ||| prefixed(file, bytes("node:"))
    ||| contains(file, bytes("/node_modules/"))
    ||| contains(file, bytes("internal/modules/"))
}

/// Whether a frame of the given runtime is library or vendor code rather
/// than the user's own.
pub open spec fn stdlib(format: TraceFormat, function: Seq<u8>, file: Option<Seq<u8>>) -> bool {
    match format {
        TraceFormat::Rust => rust_library_function(function) || (file matches Some(f)
            && rust_library_file(f)),
        TraceFormat::Go => go_library_function(function) || (file matches Some(f)
            && go_library_file(f)),
        TraceFormat::NodeJs => file matches Some(f) && node_library_file(f),
    }
}

/// The frame that the given parts make up for a trace of the given runtime.
pub open spec fn frame_of(
    format: TraceFormat,
    function: Seq<u8>,
    file: Option<Seq<u8>>,
    line: Option<nat>,
    column: Option<nat>,
    raw: Seq<u8>,
) -> FrameView {
    FrameView { function, file, line, column, is_stdlib: stdlib(format, function, file), raw }
}

impl FrameView {
    /// A frame of a trace of the given runtime is sound if it is well
    /// formed and is marked as library code exactly when the rules of that
    /// runtime say that it is.
    pub open spec fn sound(self, format: TraceFormat) -> bool {
        self.wf() && self.is_stdlib == stdlib(format, self.function, self.file)
    }
}

fn is_rust_library(function: &[u8], file: Option<&[u8]>) -> (r: bool)
    ensures
        r == (rust_library_function(function@) || (file matches Some(f) && rust_library_file(
            f@,
        ))),
{
    if starts_with(function, "std::".as_bytes()) || starts_with(function, "core::".as_bytes())
        || starts_with(function, "alloc::".as_bytes()) || starts_with(
        function,
        "__rust_".as_bytes(),
    ) {
        return true;
    }
    match file {
        Some(f) => includes(f, "/library/std/".as_bytes()) || includes(
            f,
            "/library/core/".as_bytes(),
        ) || includes(f, "/library/alloc/".as_bytes()) || includes(f, "rustc/".as_bytes()),
        None => false,
    }
}

fn is_go_library(function: &[u8], file: Option<&[u8]>) -> (r: bool)
    ensures
        r == (go_library_function(function@) || (file matches Some(f) && go_library_file(f@))),
{
    if starts_with(function, "runtime.".as_bytes()) || starts_with(
        function,
        "reflect.".as_bytes(),
    ) {
        return true;
    }
    match file {
        Some(f) => includes(f, "/src/runtime/".as_bytes()) || includes(
            f,
            "/usr/local/go/src/".as_bytes(),
        ) || includes(f, "/go/src/".as_bytes()),
        None => false,
    }
}

fn is_node_library(file: Option<&[u8]>) -> (r: bool)
    ensures
        r == (file matches Some(f) && node_library_file(f@)),
{
    match file {
        Some(f) => starts_with(f, "node:".as_bytes()) || includes(
            f,
            "/node_modules/".as_bytes(),
        ) || includes(f, "internal/modules/".as_bytes()),
        None => false,
    }
}

/// Decides whether a frame of the given runtime is library or vendor code.
pub fn is_stdlib(format: TraceFormat, function: &str, file: Option<&str>) -> (r: bool)
    ensures
        r == stdlib(format, bytes(function), opt_bytes(file)),
{
    let f = function.as_bytes();
    let p: Option<&[u8]> = match file {
        Some(s) => Some(s.as_bytes()),
        None => None,
    };
    match format {
        TraceFormat::Rust => is_rust_library(f, p),
        TraceFormat::Go => is_go_library(f, p),
        TraceFormat::NodeJs => is_node_library(p),
    }
}

impl Frame {
    /// Builds the frame of a trace of the given runtime from its parts and
    /// classifies it as library or user code.
    pub fn new(
        format: TraceFormat,
        function: &str,
        file: Option<&str>,
        line: Option<usize>,
        column: Option<usize>,
        raw: &str,
    ) -> (r: Frame)
        ensures
            r@ == frame_of(
                format,
                bytes(function),
                opt_bytes(file),
                match line {
                    Some(n) => Some(n as nat),
                    None => None,
                },
                match column {
                    Some(n) => Some(n as nat),
                    None => None,
                },
                bytes(raw),
            ),
    {
        let is_stdlib = is_stdlib(format, function, file);
        let file = match file {
            Some(f) => Some(f.to_owned()),
            None => None,
        };
        Frame { function: function.to_owned(), file, line, column, is_stdlib, raw: raw.to_owned() }
    }
}

} // verus!
