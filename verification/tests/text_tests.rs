use panic_pretty::frame::{is_stdlib, Frame, TraceFormat};
use panic_pretty::go_trace::{
    goroutine_line, panic_header, read_go_function, read_go_location, read_go_message,
};
use panic_pretty::location::locate;
use panic_pretty::node_trace::{error_header, parse_node_frame};
use panic_pretty::numeral::{pad_left, write_number};
use panic_pretty::region::classify_region;
use panic_pretty::rust_trace::{parse_rust_frame, read_rust_message, thread_header};
use panic_pretty::site::{at_rest, split_call, split_word};
use panic_pretty::text::{
    digit, find_byte, find_str, includes, is_blank, matches_at, numeric, parse_number,
    rfind_byte, space, starts_with, trim, trim_end, trim_start,
};

#[test]
fn whitespace_is_the_six_ascii_blanks() {
    for c in [b' ', b'\t', b'\n', 0x0b, 0x0c, b'\r'] {
        assert!(space(c));
    }
    for c in [0x08, 0x0e, 0x1f, b'a', b'0', 0x00, 0x85, 0xa0, 0xff] {
        assert!(!space(c));
    }
    assert!(digit(b'0') && digit(b'9') && !digit(b'/') && !digit(b':'));
}

#[test]
fn trimming() {
    assert_eq!(trim("  a b \t\r\n"), "a b");
    assert_eq!(trim_start("  a b \t"), "a b \t");
    assert_eq!(trim_end("  a b \t"), "  a b");
    assert_eq!(trim(" \t "), "");
    assert_eq!(trim(""), "");
    assert_eq!(trim("x"), "x");
    assert_eq!(trim("\u{a0}é \u{2003}"), "\u{a0}é \u{2003}");
    assert_eq!(trim(" é "), "é");
    assert!(is_blank(b"") && is_blank(b" \t\r") && !is_blank(b" . "));
}

#[test]
fn searching() {
    assert_eq!(find_byte(b"a:b:c", b':'), Some(1));
    assert_eq!(rfind_byte(b"a:b:c", b':'), Some(3));
    assert_eq!(find_byte(b"abc", b':'), None);
    assert_eq!(rfind_byte(b"", b':'), None);
    assert_eq!(find_byte(b":", b':'), Some(0));
    assert_eq!(rfind_byte(b":", b':'), Some(0));

    assert_eq!(find_str(b"abcabc", b"bc"), Some(1));
    assert_eq!(find_str(b"abcabc", b"abcabc"), Some(0));
    assert_eq!(find_str(b"abcabc", b"abcabcd"), None);
    assert_eq!(find_str(b"abcabc", b"cb"), None);
    assert_eq!(find_str(b"abc", b""), Some(0));
    assert_eq!(find_str(b"", b""), Some(0));
    assert_eq!(find_str(b"", b"a"), None);
    assert_eq!(find_str(b"aab", b"ab"), Some(1));

    assert!(includes(b"/x/library/std/y", b"/library/std/"));
    assert!(!includes(b"library/std/y", b"/library/std/"));
    assert!(includes(b"abc", b"c"));
    assert!(includes(b"abc", b""));

    assert!(starts_with(b"std::fmt", b"std::"));
    assert!(!starts_with(b"std:", b"std::"));
    assert!(!starts_with(b"xstd::", b"std::"));
    assert!(starts_with(b"abc", b""));

    assert!(matches_at(b"abc", b"bc", 1));
    assert!(!matches_at(b"abc", b"bc", 2));
    assert!(!matches_at(b"abc", b"bc", 7));
    assert!(matches_at(b"abc", b"", 3));
    assert!(!matches_at(b"abc", b"", 4));
}

#[test]
fn reading_numbers() {
    assert_eq!(parse_number(b"1"), Some(1));
    assert_eq!(parse_number(b"42"), Some(42));
    assert_eq!(parse_number(b"007"), Some(7));
    assert_eq!(parse_number(b"0"), None);
    assert_eq!(parse_number(b"000"), None);
    assert_eq!(parse_number(b""), None);
    assert_eq!(parse_number(b"12a"), None);
    assert_eq!(parse_number(b"-1"), None);
    assert_eq!(parse_number(b"+1"), None);
    assert_eq!(parse_number(b" 1"), None);
    assert_eq!(parse_number(usize::MAX.to_string().as_bytes()), Some(usize::MAX));
    let beyond = format!("{}", usize::MAX as u128 + 1);
    assert_eq!(parse_number(beyond.as_bytes()), None);
    assert_eq!(parse_number(format!("{}0", usize::MAX).as_bytes()), None);
    assert_eq!(parse_number(format!("0{}", usize::MAX).as_bytes()), Some(usize::MAX));
    assert!(numeric(b"0") && numeric(b"123") && !numeric(b"") && !numeric(b"1 ") && !numeric(b"x"));
}

#[test]
fn writing_numbers() {
    assert_eq!(write_number(0), "0");
    assert_eq!(write_number(7), "7");
    assert_eq!(write_number(10), "10");
    assert_eq!(write_number(1234567890), "1234567890");
    assert_eq!(write_number(usize::MAX), usize::MAX.to_string());
    assert_eq!(pad_left("7", 4), "   7");
    assert_eq!(pad_left("1234", 4), "1234");
    assert_eq!(pad_left("12345", 4), "12345");
    assert_eq!(pad_left("", 2), "  ");
    assert_eq!(pad_left("é", 3), "  é");
    assert_eq!(pad_left("x", 0), "x");
}

#[test]
fn at_lines() {
    assert_eq!(at_rest("   at f (a.rs:1:1)  "), Some("f (a.rs:1:1)"));
    assert_eq!(at_rest("at\tf"), Some("f"));
    assert_eq!(at_rest("at   f  "), Some("f"));
    assert_eq!(at_rest("at"), None);
    assert_eq!(at_rest("at "), None);
    assert_eq!(at_rest("atf x"), None);
    assert_eq!(at_rest("At f"), None);
    assert_eq!(at_rest("x at f"), None);
    assert_eq!(at_rest(""), None);

    assert_eq!(split_call("f (a.rs:1:1)"), Some(("f", "a.rs:1:1")));
    assert_eq!(split_call("new Foo (a.js:1:1)"), Some(("new Foo", "a.js:1:1")));
    assert_eq!(split_call("f  \t(a:1)"), Some(("f", "a:1")));
    assert_eq!(split_call("f (a) (b:1)"), Some(("f", "a) (b:1")));
    assert_eq!(split_call("f ()"), Some(("f", "")));
    assert_eq!(split_call("f (a:1) x"), None);
    assert_eq!(split_call("f(a:1)"), None);
    assert_eq!(split_call("f ("), None);
    assert_eq!(split_call(" ()"), Some(("", "")));
    assert_eq!(split_call(""), None);

    assert_eq!(split_word("f a.rs:1"), Some(("f", "a.rs:1")));
    assert_eq!(split_word("f   a b"), Some(("f", "a b")));
    assert_eq!(split_word("f"), None);
    assert_eq!(split_word(" f"), None);
    assert_eq!(split_word(""), None);
}

#[test]
fn citations() {
    let parts = |cite| locate(cite).map(|p| (p.file, p.line, p.column));
    assert_eq!(parts("a.rs:1:2"), Some(("a.rs", Some(1), Some(2))));
    assert_eq!(parts("a.rs:1"), Some(("a.rs", Some(1), None)));
    assert_eq!(parts("a.rs:"), Some(("a.rs", None, None)));
    assert_eq!(parts("a:b:c"), Some(("a:b", None, None)));
    assert_eq!(parts("a:1:c"), Some(("a", Some(1), None)));
    assert_eq!(parts("a:0:1"), Some(("a", None, None)));
    assert_eq!(parts("a::1"), Some(("a:", Some(1), None)));
    assert_eq!(parts("1:2:3"), Some(("1", Some(2), Some(3))));
    assert_eq!(parts("1:2"), Some(("1", Some(2), None)));
    assert_eq!(parts("a.rs"), None);
    assert_eq!(parts(":1:2"), None);
    assert_eq!(parts(":"), None);
    assert_eq!(parts(""), None);
}

#[test]
fn frame_lines() {
    let frame = parse_rust_frame("  at  core::fmt::write (/rustc/x/library/core/src/fmt/mod.rs:1:2)").unwrap();
    assert_eq!(frame.function, "core::fmt::write");
    assert_eq!(frame.file.as_deref(), Some("/rustc/x/library/core/src/fmt/mod.rs"));
    assert_eq!((frame.line, frame.column, frame.is_stdlib), (Some(1), Some(2), true));
    assert_eq!(frame.raw, "  at  core::fmt::write (/rustc/x/library/core/src/fmt/mod.rs:1:2)");
    assert!(parse_rust_frame("at f").is_none());
    assert!(parse_rust_frame("f (a.rs:1:2)").is_none());
    assert!(parse_rust_frame("at f (a.rs)").is_none());

    let frame = parse_node_frame("    at async Promise.all (/app/a.js:1:2)").unwrap();
    assert_eq!(frame.function, "async Promise.all");
    assert!(parse_node_frame("    at f (/app/a.js:1)").is_none());
    assert!(parse_node_frame("    at f /app/a.js:1:2").is_none());
    assert!(parse_node_frame("    at f (index 0)").is_none());
    assert_eq!(parse_node_frame("at a.js:1:2").unwrap().function, "<anonymous>");
}

#[test]
fn headlines() {
    assert!(thread_header("thread 'main' panicked at 'x'"));
    assert!(thread_header("thread '<unnamed>' panicked at src/main.rs:1:1:"));
    assert!(!thread_header(" thread 'main' panicked"));
    assert!(!thread_header("thread 'main' exited"));
    assert!(!thread_header("thread main panicked"));
    assert_eq!(read_rust_message("thread 'main' panicked at 'a b', c.rs:1:1"), "a b");
    assert_eq!(read_rust_message("no headline"), "");

    assert!(panic_header("panic: x") && panic_header("panic:") && !panic_header(" panic: x"));
    assert!(!panic_header("panic x") && !panic_header("Panic: x"));
    assert_eq!(read_go_message("panic:   runtime error: x  "), Some("runtime error: x"));
    assert_eq!(read_go_message("panic:"), Some(""));
    assert_eq!(read_go_message("error: x"), None);
    assert!(goroutine_line("goroutine 1 [running]:"));
    assert!(goroutine_line("goroutine 18 [chan receive, 2 minutes]:  "));
    assert!(goroutine_line("goroutine 1:"));
    assert!(!goroutine_line("goroutine 1 [running]"));
    assert!(!goroutine_line(" goroutine 1 [running]:"));
    assert!(!goroutine_line("goroutine:"));

    assert!(error_header("Error: x") && error_header("TypeError:") && error_header("E:\tx"));
    assert!(error_header("_e$9: x"));
    assert!(!error_header("Error:x") && !error_header("Error : x") && !error_header(": x"));
    assert!(!error_header("") && !error_header("Error") && !error_header("Ünicode: x"));
}

#[test]
fn go_lines() {
    assert_eq!(read_go_function("main.main()"), Some("main.main"));
    assert_eq!(read_go_function("\tmain.f(...)"), Some("main.f"));
    assert_eq!(read_go_function("main.(*T).f(0x1)"), Some("main.(*T).f"));
    assert_eq!(read_go_function("f()g()"), Some("f()g"));
    assert_eq!(read_go_function("main.main"), None);
    assert_eq!(read_go_function("a b()"), None);
    assert_eq!(read_go_function("(x)"), None);
    assert_eq!(read_go_function(""), None);
    assert_eq!(read_go_location("\t/a.go:12 +0x1f"), Some(("/a.go", 12)));
    assert_eq!(read_go_location(" /a.go:12   +0x"), Some(("/a.go", 12)));
    assert_eq!(read_go_location("\t/a.go:12 0x1f"), None);
    assert_eq!(read_go_location("/a.go:12"), None);
    assert_eq!(read_go_location("\t"), None);
    assert_eq!(read_go_location(""), None);
}

#[test]
fn library_code() {
    assert!(is_stdlib(TraceFormat::Rust, "std::x", None));
    assert!(is_stdlib(TraceFormat::Rust, "x", Some("a/rustc/b")));
    assert!(!is_stdlib(TraceFormat::Rust, "x", None));
    assert!(is_stdlib(TraceFormat::Go, "runtime.x", None));
    assert!(!is_stdlib(TraceFormat::Go, "std::x", Some("/library/std/")));
    assert!(is_stdlib(TraceFormat::NodeJs, "x", Some("node:fs")));
    assert!(!is_stdlib(TraceFormat::NodeJs, "runtime.x", None));
    assert!(!is_stdlib(TraceFormat::NodeJs, "std::x", Some("/go/src/x")));

    let frame = Frame::new(TraceFormat::Go, "reflect.x", Some("/a.go"), Some(3), None, "raw");
    assert_eq!(
        frame,
        Frame {
            function: "reflect.x".to_string(),
            file: Some("/a.go".to_string()),
            line: Some(3),
            column: None,
            is_stdlib: true,
            raw: "raw".to_string(),
        }
    );
}

#[test]
fn classifying_regions() {
    assert_eq!(classify_region("thread 'main' panicked\n"), Some(TraceFormat::Rust));
    assert_eq!(classify_region("panic: x\ngoroutine 1 [running]:\n"), Some(TraceFormat::Go));
    assert_eq!(classify_region("panic: x\n"), None);
    assert_eq!(classify_region("Error: x\n at f (a:1:2)\n"), Some(TraceFormat::NodeJs));
    assert_eq!(classify_region("Error: x\n at f a:1:2\n"), Some(TraceFormat::Rust));
    assert_eq!(classify_region("Error: x\n at nothing\n"), Some(TraceFormat::NodeJs));
    assert_eq!(classify_region("Error: x\n"), None);
    assert_eq!(classify_region("log\n at f a:1\n"), Some(TraceFormat::Rust));
    assert_eq!(classify_region("log\n"), None);
    assert_eq!(classify_region(""), None);
}
