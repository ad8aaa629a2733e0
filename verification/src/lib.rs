//! Reading the stack traces of Rust, Go and Node.js programs out of
//! free-form text, and laying them out for display.
//!
//! [`parser`] finds the traces in a text and reads each into a uniform
//! model of frames; [`formatter`] turns a trace into the text to print for
//! it. Every recogniser is specified over the UTF-8 bytes of its input by a
//! `spec` function, and the executable code is proved to compute exactly
//! what that function says.

pub mod extract;
pub mod formatter;
pub mod frame;
pub mod go_trace;
pub mod lines;
pub mod location;
pub mod node_trace;
pub mod numeral;
pub mod parser;
pub mod region;
pub mod rust_trace;
pub mod site;
pub mod style;
pub mod text;
