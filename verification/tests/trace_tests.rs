use panic_pretty::parser::{Frame, Span, StackTrace, TraceFormat};

fn tuple(frame: &Frame) -> (&str, Option<&str>, Option<usize>, Option<usize>, bool) {
    (frame.function.as_str(), frame.file.as_deref(), frame.line, frame.column, frame.is_stdlib)
}

fn tuples(trace: &StackTrace) -> Vec<(&str, Option<&str>, Option<usize>, Option<usize>, bool)> {
    trace.frames.iter().map(tuple).collect()
}

#[test]
fn rust_trace_with_both_citation_forms() {
    let input = "thread 'main' panicked at 'assertion failed'\n   at my_function (src/main.rs:10:5)\n   at another_func src/lib.rs:20:10";
    let trace = StackTrace::parse(input).unwrap();
    assert_eq!(trace.format, TraceFormat::Rust);
    assert_eq!(trace.message, "assertion failed");
    assert_eq!(
        tuples(&trace),
        vec![
            ("my_function", Some("src/main.rs"), Some(10), Some(5), false),
            ("another_func", Some("src/lib.rs"), Some(20), Some(10), false),
        ]
    );
    assert_eq!(trace.frames[0].raw, "   at my_function (src/main.rs:10:5)");
    assert_eq!(trace.frames[1].raw, "   at another_func src/lib.rs:20:10");
    assert_eq!(trace.span, Span { start: 0, end: input.len() });
}

#[test]
fn go_trace_pairs_function_and_location_lines() {
    let input = "panic: runtime error\ngoroutine 1 [running]:\nmain.doSomething()\n\t/home/user/main.go:15 +0x50\nmain.main()\n\t/home/user/main.go:10 +0x20";
    let trace = StackTrace::parse(input).unwrap();
    assert_eq!(trace.format, TraceFormat::Go);
    assert_eq!(trace.message, "runtime error");
    assert_eq!(
        tuples(&trace),
        vec![
            ("main.doSomething", Some("/home/user/main.go"), Some(15), None, false),
            ("main.main", Some("/home/user/main.go"), Some(10), None, false),
        ]
    );
    assert_eq!(trace.frames[0].raw, "main.doSomething()\n\t/home/user/main.go:15 +0x50");
    assert_eq!(trace.frames[1].raw, "main.main()\n\t/home/user/main.go:10 +0x20");
}

#[test]
fn node_trace_with_named_frames() {
    let input = "Error: Something went wrong\n    at myFunc (/app/index.js:42:15)\n    at Object.<anonymous> (/app/server.js:10:3)";
    let trace = StackTrace::parse(input).unwrap();
    assert_eq!(trace.format, TraceFormat::NodeJs);
    assert_eq!(trace.message, "Error: Something went wrong");
    assert_eq!(
        tuples(&trace),
        vec![
            ("myFunc", Some("/app/index.js"), Some(42), Some(15), false),
            ("Object.<anonymous>", Some("/app/server.js"), Some(10), Some(3), false),
        ]
    );
}

#[test]
fn node_frame_without_function_is_anonymous() {
    let input = "ReferenceError: y is not defined\n    at /app/index.js:3:1\n    at node:internal/main/run_main_module:23:47\n";
    let trace = StackTrace::parse(input).unwrap();
    assert_eq!(trace.format, TraceFormat::NodeJs);
    assert_eq!(
        tuples(&trace),
        vec![
            ("<anonymous>", Some("/app/index.js"), Some(3), Some(1), false),
            ("<anonymous>", Some("node:internal/main/run_main_module"), Some(23), Some(47), true),
        ]
    );
}

#[test]
fn multi_trace_frames_match_the_single_parses() {
    let rust = "thread 'main' panicked at 'error 1'\n   at func1 (src/a.rs:5:1)\n\n";
    let go = "panic: error 2\ngoroutine 1 [running]:\nmain.func2()\n\t/home/b.go:10 +0x20";
    let input = format!("{}{}", rust, go);
    let traces = StackTrace::parse_multiple(&input);
    assert_eq!(traces.len(), 2);
    assert_eq!(traces[0].format, TraceFormat::Rust);
    assert_eq!(traces[1].format, TraceFormat::Go);
    assert_eq!(traces[0].frames, StackTrace::parse(rust).unwrap().frames);
    assert_eq!(traces[1].frames, StackTrace::parse(go).unwrap().frames);
    assert_eq!(traces[0].span, Span { start: 0, end: rust.len() });
    assert_eq!(traces[1].span, Span { start: rust.len(), end: input.len() });
    assert_eq!(&input[traces[1].span.start..traces[1].span.end], go);
}

#[test]
fn unrecognised_text_holds_no_trace() {
    assert!(StackTrace::parse_multiple("This is not a stack trace at all").is_empty());
    assert!(StackTrace::parse_multiple("at").is_empty());
    assert!(StackTrace::parse_multiple("   at least we tried\n").is_empty());
    assert!(StackTrace::parse_multiple("note: nothing to see\nwarning: still nothing\n").is_empty());
    assert!(StackTrace::parse_multiple("\n\n\n").is_empty());
    assert!(StackTrace::parse("").is_none());
}

#[test]
fn headline_without_frames_is_dropped() {
    assert!(StackTrace::parse_multiple("thread 'main' panicked at 'boom'\n").is_empty());
    assert!(StackTrace::parse_multiple("panic: boom\ngoroutine 1 [running]:\n").is_empty());
    assert!(StackTrace::parse_multiple("panic: boom\nmain.main()\n\t/a.go:1\n").is_empty());
    assert!(StackTrace::parse_multiple("Error: boom\n    at nowhere\n").is_empty());
    let input = "thread 'main' panicked at 'first'\nthread 'main' panicked at 'second'\n at f (a.rs:1:1)\n";
    let traces = StackTrace::parse_multiple(input);
    assert_eq!(traces.len(), 1);
    assert_eq!(traces[0].message, "second");
    assert_eq!(traces[0].span.start, "thread 'main' panicked at 'first'\n".len());
}

#[test]
fn rust_messages() {
    let frames = "\n   at f (a.rs:1:1)";
    let parse = |head: &str| StackTrace::parse(&format!("{}{}", head, frames)).unwrap().message;
    assert_eq!(parse("thread 'main' panicked at 'assertion failed', src/main.rs:10:5"), "assertion failed");
    assert_eq!(parse("thread 'main' panicked at src/main.rs:10:5:  "), "src/main.rs:10:5:");
    assert_eq!(parse("thread 'main' panicked at 'unclosed"), "'unclosed");
    assert_eq!(parse("thread 'main' panicked at ''"), "");
    assert_eq!(parse("thread 'main' panicked"), "");
    assert_eq!(parse("thread 'worker' panicked at 'it''s'"), "it");
}

#[test]
fn rust_frames_without_headline_make_a_trace_without_message() {
    let input = "some log line\n   at f (src/a.rs:1:2)\n   at g src/b.rs:3\nmore log\n";
    let traces = StackTrace::parse_multiple(input);
    assert_eq!(traces.len(), 1);
    assert_eq!(traces[0].format, TraceFormat::Rust);
    assert_eq!(traces[0].message, "");
    assert_eq!(
        tuples(&traces[0]),
        vec![
            ("f", Some("src/a.rs"), Some(1), Some(2), false),
            ("g", Some("src/b.rs"), Some(3), None, false),
        ]
    );
    assert_eq!(traces[0].span, Span { start: "some log line\n".len(), end: input.len() });
}

#[test]
fn rust_frames_after_a_first_trace_open_no_region_of_their_own() {
    let input = "panic: x\ngoroutine 1 [running]:\nmain.f()\n\t/a.go:1\n   at g (src/b.rs:3:4)\n";
    let traces = StackTrace::parse_multiple(input);
    assert_eq!(traces.len(), 1);
    assert_eq!(traces[0].format, TraceFormat::Go);
    assert_eq!(tuples(&traces[0]), vec![("main.f", Some("/a.go"), Some(1), None, false)]);
}

#[test]
fn more_rust_frames_than_node_frames_make_a_rust_trace() {
    let input = "Error: oops\n   at f src/a.rs:1:2\n   at g (src/b.rs:3:4)\n";
    let trace = StackTrace::parse(input).unwrap();
    assert_eq!(trace.format, TraceFormat::Rust);
    assert_eq!(trace.message, "");
    assert_eq!(trace.frames.len(), 2);

    let tie = "Error: oops\n   at g (src/b.rs:3:4)\n";
    assert_eq!(StackTrace::parse(tie).unwrap().format, TraceFormat::NodeJs);

    let no_column = "Error: oops\n   at g (src/b.rs:3)\n";
    let trace = StackTrace::parse(no_column).unwrap();
    assert_eq!(trace.format, TraceFormat::Rust);
    assert_eq!(tuples(&trace), vec![("g", Some("src/b.rs"), Some(3), None, false)]);
}

#[test]
fn panic_headline_without_goroutine_falls_back_on_the_frames() {
    let node = "panic: oops\n    at f (/a.js:1:2)\n";
    let trace = StackTrace::parse(node).unwrap();
    assert_eq!(trace.format, TraceFormat::NodeJs);
    assert_eq!(trace.message, "panic: oops");

    let rust = "panic: oops\nsomething\n    at f src/a.rs:1:2\n";
    let trace = StackTrace::parse(rust).unwrap();
    assert_eq!(trace.format, TraceFormat::Rust);
    assert_eq!(trace.message, "");
    assert_eq!(trace.span.start, 0);
}

#[test]
fn node_headline_needs_an_at_line_right_after_it() {
    assert!(StackTrace::parse_multiple("Error: x\n\n    at /a.js:1:2\n").is_empty());
    assert!(StackTrace::parse_multiple("Error [CODE]: x\n    at /a.js:1:2\n").is_empty());
    assert!(StackTrace::parse_multiple(" Error: x\n    at /a.js:1:2\n").is_empty());
    assert!(StackTrace::parse_multiple("9Error: x\n    at /a.js:1:2\n").is_empty());
    assert!(StackTrace::parse_multiple("C:\\x.js:1\n    at /a.js:1:2\n").is_empty());
    assert_eq!(StackTrace::parse_multiple("Error:\n    at /a.js:1:2\n").len(), 1);
    assert_eq!(StackTrace::parse_multiple("$my_Error2: x\n    at /a.js:1:2\n").len(), 1);
}

#[test]
fn blank_line_ends_the_frames_unless_frames_follow() {
    let stops = "Error: x\n    at f (/a.js:1:2)\n\nsome log line\n    at g (/b.js:1:1)\n";
    assert_eq!(StackTrace::parse(stops).unwrap().frames.len(), 1);

    let goes_on = "Error: x\n    at f (/a.js:1:2)\n\n  \n    at g (/b.js:1:1)\n";
    assert_eq!(StackTrace::parse(goes_on).unwrap().frames.len(), 2);

    let other_lines = "Error: x\n    at f (/a.js:1:2)\nsome log line\n    at g (/b.js:1:1)\n";
    assert_eq!(StackTrace::parse(other_lines).unwrap().frames.len(), 2);

    let before_first = "thread 'main' panicked at 'x'\n\nnote: run with RUST_BACKTRACE=1\n\n   at f (a.rs:1:2)\n";
    assert_eq!(StackTrace::parse(before_first).unwrap().frames.len(), 1);

    let trailing = "Error: x\n    at f (/a.js:1:2)\n\n\n";
    assert_eq!(StackTrace::parse(trailing).unwrap().frames.len(), 1);
}

#[test]
fn goroutine_sections_are_read_one_after_the_other() {
    let input = "panic: x\n\ngoroutine 1 [running]:\nmain.f(0x1, 0x2)\n\t/a.go:1 +0x1\nmain.lonely()\nmain.(*T).g(...)\n    /b.go:2\n\ngoroutine 2 [sleep]:\nruntime.gopark()\n\t/usr/local/go/src/runtime/proc.go:398 +0xce\ncreated by main.main in goroutine 1\n\t/a.go:9 +0x10\nexit status 2\n\nmain.late()\n";
    let trace = StackTrace::parse(input).unwrap();
    assert_eq!(trace.format, TraceFormat::Go);
    assert_eq!(
        tuples(&trace),
        vec![
            ("main.f", Some("/a.go"), Some(1), None, false),
            ("main.lonely", None, None, None, false),
            ("main.(*T).g", Some("/b.go"), Some(2), None, false),
            ("runtime.gopark", Some("/usr/local/go/src/runtime/proc.go"), Some(398), None, true),
            ("main.late", None, None, None, false),
        ]
    );
    assert_eq!(trace.frames[1].raw, "main.lonely()");
}

#[test]
fn go_location_lines_must_be_indented_and_well_formed() {
    let parse = |second: &str| {
        let input = format!("panic: x\ngoroutine 1 [running]:\nmain.f()\n{}\n", second);
        let trace = StackTrace::parse(&input).unwrap();
        (trace.frames.len(), trace.frames[0].file.clone(), trace.frames[0].line)
    };
    assert_eq!(parse("\t/a.go:12 +0x1f"), (1, Some("/a.go".to_string()), Some(12)));
    assert_eq!(parse("  /a.go:12"), (1, Some("/a.go".to_string()), Some(12)));
    assert_eq!(parse("/a.go:12"), (1, None, None));
    assert_eq!(parse("\t/a.go:12 extra"), (1, None, None));
    assert_eq!(parse("\t/a.go:x"), (1, None, None));
    assert_eq!(parse("\t/a.go:0"), (1, None, None));
    assert_eq!(parse("\t:12"), (1, None, None));
    assert_eq!(parse("\t/a.go"), (1, None, None));
    assert_eq!(parse("\tC:/go/a.go:7"), (1, Some("C:/go/a.go".to_string()), Some(7)));
}

#[test]
fn go_function_lines() {
    let parse = |line: &str| {
        let input = format!("panic: x\ngoroutine 1 [running]:\n{}\n", line);
        StackTrace::parse(&input).map(|t| t.frames[0].function.clone())
    };
    assert_eq!(parse("main.f()"), Some("main.f".to_string()));
    assert_eq!(parse("  main.f()  "), Some("main.f".to_string()));
    assert_eq!(parse("main.(*Server).Serve(0xc000010000, {0x1, 0x2})"), Some("main.(*Server).Serve".to_string()));
    assert_eq!(parse("main.f"), None);
    assert_eq!(parse("()"), None);
    assert_eq!(parse("not a function()"), None);
    assert_eq!(parse("main.f() trailing"), None);
}

#[test]
fn citations_are_read_from_the_right() {
    let parse = |cite: &str| {
        let input = format!("thread 'main' panicked\n   at f ({})", cite);
        StackTrace::parse(&input).map(|t| {
            let f = &t.frames[0];
            (f.file.clone().unwrap(), f.line, f.column)
        })
    };
    let some = |file: &str, line, column| Some((file.to_string(), line, column));
    assert_eq!(parse("src/main.rs:10:5"), some("src/main.rs", Some(10), Some(5)));
    assert_eq!(parse("src/main.rs:10"), some("src/main.rs", Some(10), None));
    assert_eq!(parse("C:\\src\\main.rs:10:5"), some("C:\\src\\main.rs", Some(10), Some(5)));
    assert_eq!(parse("C:\\src\\main.rs:10"), some("C:\\src\\main.rs", Some(10), None));
    assert_eq!(parse("node:internal/x:7:9"), some("node:internal/x", Some(7), Some(9)));
    assert_eq!(parse("src/main.rs:10:x"), some("src/main.rs", Some(10), None));
    assert_eq!(parse("src/main.rs:10:"), some("src/main.rs", Some(10), None));
    assert_eq!(parse("src/main.rs:10:0"), some("src/main.rs", Some(10), None));
    assert_eq!(parse("src/main.rs:0:5"), some("src/main.rs", None, None));
    assert_eq!(parse("src/main.rs:x"), some("src/main.rs", None, None));
    assert_eq!(parse("src/main.rs:"), some("src/main.rs", None, None));
    assert_eq!(parse("src/main.rs:x:5"), some("src/main.rs:x", Some(5), None));
    assert_eq!(parse("src/main.rs:007:010"), some("src/main.rs", Some(7), Some(10)));
    assert_eq!(
        parse("a.rs:99999999999999999999999999:5"),
        some("a.rs", None, None)
    );
    assert_eq!(parse("a.rs:5:99999999999999999999999999"), some("a.rs", Some(5), None));
    assert_eq!(parse("src/main.rs"), None);
    assert_eq!(parse(":10:5"), None);
    assert_eq!(parse(":5"), None);
    assert_eq!(parse(""), None);
}

#[test]
fn largest_line_number_is_kept() {
    let input = format!("thread 'main' panicked\n   at f (a.rs:{}:1)", usize::MAX);
    let trace = StackTrace::parse(&input).unwrap();
    assert_eq!(trace.frames[0].line, Some(usize::MAX));
}

#[test]
fn rust_function_ends_before_the_parenthesised_citation() {
    let parse = |line: &str| {
        let input = format!("thread 'main' panicked\n{}", line);
        StackTrace::parse(&input).map(|t| {
            (t.frames[0].function.clone(), t.frames[0].file.clone().unwrap())
        })
    };
    let some = |function: &str, file: &str| Some((function.to_string(), file.to_string()));
    assert_eq!(parse("at <T as core::fmt::Debug>::fmt (lib.rs:1:1)"), some("<T as core::fmt::Debug>::fmt", "lib.rs"));
    assert_eq!(parse("at main::{{closure}}   (src/main.rs:2:3)"), some("main::{{closure}}", "src/main.rs"));
    assert_eq!(parse("\tat  f\t(a.rs:1:1)  "), some("f", "a.rs"));
    assert_eq!(parse("at f(a.rs:1:1) b.rs:2:2"), some("f(a.rs:1:1)", "b.rs"));
    assert_eq!(parse("at f   src/my file.rs:2:2"), some("f", "src/my file.rs"));
    assert_eq!(parse("at f (a.rs:1:1"), some("f", "(a.rs"));
    assert_eq!(parse("at f"), None);
    assert_eq!(parse("at f ()"), None);
    assert_eq!(parse("at"), None);
    assert_eq!(parse("attic f (a.rs:1:1)"), None);
}

#[test]
fn carriage_returns_are_trimmed_away() {
    let input = "thread 'main' panicked at 'boom'\r\n   at f (src/a.rs:1:2)\r\n";
    let trace = StackTrace::parse(input).unwrap();
    assert_eq!(trace.message, "boom");
    assert_eq!(tuples(&trace), vec![("f", Some("src/a.rs"), Some(1), Some(2), false)]);
    assert_eq!(trace.frames[0].raw, "   at f (src/a.rs:1:2)\r");

    let node = "Error: x\r\n    at f (/a.js:1:2)\r\n";
    let trace = StackTrace::parse(node).unwrap();
    assert_eq!(trace.format, TraceFormat::NodeJs);
    assert_eq!(trace.message, "Error: x");

    let go = "panic: x\r\ngoroutine 1 [running]:\r\nmain.f()\r\n\t/a.go:3 +0x1\r\n";
    let trace = StackTrace::parse(go).unwrap();
    assert_eq!(tuples(&trace), vec![("main.f", Some("/a.go"), Some(3), None, false)]);
}

#[test]
fn text_beyond_ascii_is_kept_whole() {
    let input = "журнал: старт\nthread 'главный' panicked at 'héllo wörld ✓'\n   at café::run (src/ü/main.rs:1:2)\n   at 関数 ソース.rs:3:4\n";
    let traces = StackTrace::parse_multiple(input);
    assert_eq!(traces.len(), 1);
    let trace = &traces[0];
    assert_eq!(trace.message, "héllo wörld ✓");
    assert_eq!(
        tuples(trace),
        vec![
            ("café::run", Some("src/ü/main.rs"), Some(1), Some(2), false),
            ("関数", Some("ソース.rs"), Some(3), Some(4), false),
        ]
    );
    assert_eq!(trace.span, Span { start: "журнал: старт\n".len(), end: input.len() });
    assert!(input[trace.span.start..].starts_with("thread '"));
}

#[test]
fn rust_library_frames() {
    let parse = |line: &str| {
        let input = format!("thread 'main' panicked\n   at {}", line);
        StackTrace::parse(&input).unwrap().frames[0].is_stdlib
    };
    assert!(parse("std::rt::lang_start (a.rs:1:1)"));
    assert!(parse("core::ops::function::FnOnce::call_once (a.rs:1:1)"));
    assert!(parse("alloc::vec::Vec<T>::push (a.rs:1:1)"));
    assert!(parse("__rust_begin_short_backtrace (a.rs:1:1)"));
    assert!(parse("f (/rustc/abc/library/std/src/rt.rs:1:1)"));
    assert!(parse("f (/x/library/core/src/ops.rs:1:1)"));
    assert!(parse("f (/x/library/alloc/src/vec.rs:1:1)"));
    assert!(parse("f (rustc/x.rs:1:1)"));
    assert!(!parse("my::std::thing (src/a.rs:1:1)"));
    assert!(!parse("f (library/std/src/panic.rs:1:1)"));
    assert!(!parse("stdx::f (src/std.rs:1:1)"));
    assert!(!parse("runtime.f (/go/src/x.go:1:1)"));
}

#[test]
fn go_library_frames() {
    let parse = |function: &str, location: &str| {
        let input = format!("panic: x\ngoroutine 1 [running]:\n{}\n\t{}\n", function, location);
        StackTrace::parse(&input).unwrap().frames[0].is_stdlib
    };
    assert!(parse("runtime.gopanic()", "/x/panic.go:1"));
    assert!(parse("reflect.Value.Call()", "/x/value.go:1"));
    assert!(parse("main.f()", "/opt/go/src/runtime/proc.go:1"));
    assert!(parse("main.f()", "/usr/local/go/src/fmt/print.go:1"));
    assert!(parse("main.f()", "/home/me/go/src/x/y.go:1"));
    assert!(!parse("main.runtime.f()", "/home/me/main.go:1"));
    assert!(!parse("std::f()", "/home/library/std/main.go:1"));
}

#[test]
fn node_library_frames() {
    let parse = |file: &str| {
        let input = format!("Error: x\n    at f ({}:1:2)\n", file);
        StackTrace::parse(&input).unwrap().frames[0].is_stdlib
    };
    assert!(parse("node:internal/modules/cjs/loader"));
    assert!(parse("node:fs"));
    assert!(parse("/app/node_modules/express/lib/router.js"));
    assert!(parse("internal/modules/cjs/loader.js"));
    assert!(!parse("/app/src/node.js"));
    assert!(!parse("/app/node_modules.js"));
    assert!(!parse("/x/library/std/a.js"));
}

#[test]
fn every_trace_has_frames_and_every_frame_a_location_in_order() {
    let input = "Error: a\n    at f (/a.js:1:2)\n    at /b.js:3:4\nthread 'main' panicked\n   at g (src/a.rs:x)\n   at h src/b.rs:7\npanic: c\ngoroutine 1 [running]:\nmain.f()\nmain.g()\n\t/g.go:1\npanic: d\nError: e\nplain\n";
    let traces = StackTrace::parse_multiple(input);
    assert_eq!(traces.len(), 3);
    for trace in &traces {
        assert!(!trace.frames.is_empty());
        for frame in &trace.frames {
            assert!(!frame.function.is_empty());
            assert!(frame.column.is_none() || frame.line.is_some());
            assert!(frame.line.is_none() || frame.file.is_some());
            assert!(frame.line != Some(0) && frame.column != Some(0));
        }
    }
    assert_eq!(tuples(&traces[1])[0], ("g", Some("src/a.rs"), None, None, false));
    assert_eq!(tuples(&traces[2])[0], ("main.f", None, None, None, false));
}

#[test]
fn spans_follow_the_anchors_and_do_not_overlap() {
    let parts = [
        "log line\n",
        "Error: a\n    at f (/a.js:1:2)\n\n",
        "thread 'main' panicked\n",
        "panic: c\ngoroutine 1 [running]:\nmain.f()\n",
        "thread 'main' panicked at 'x'\n   at g (src/a.rs:1:1)\ntrailing\n",
    ];
    let input = parts.concat();
    let traces = StackTrace::parse_multiple(&input);
    assert_eq!(traces.len(), 3);
    let starts: Vec<usize> = traces.iter().map(|t| t.span.start).collect();
    let a = parts[0].len();
    let b = a + parts[1].len() + parts[2].len();
    let c = b + parts[3].len();
    assert_eq!(starts, vec![a, b, c]);
    assert_eq!(traces[0].span.end, a + parts[1].len());
    assert_eq!(traces[1].span.end, c);
    assert_eq!(traces[2].span.end, input.len());
    for pair in traces.windows(2) {
        assert!(pair[0].span.start < pair[0].span.end);
        assert!(pair[0].span.end <= pair[1].span.start);
    }
}

#[test]
fn same_text_gives_the_same_traces() {
    let input = "Error: a\n    at f (/a.js:1:2)\npanic: c\ngoroutine 1 [running]:\nmain.f()\n";
    let first = StackTrace::parse_multiple(input);
    let second = StackTrace::parse_multiple(&input.to_string());
    assert_eq!(first, second);
    assert_eq!(StackTrace::parse(input), first.into_iter().next());
}

#[test]
fn parse_gives_the_first_trace() {
    let input = "Error: a\nthread 'main' panicked\npanic: c\ngoroutine 1 [running]:\nmain.f()\nError: d\n   at g (/g.js:1:1)\n";
    let all = StackTrace::parse_multiple(input);
    assert_eq!(all.len(), 2);
    assert_eq!(StackTrace::parse(input).unwrap(), all[0]);
    assert_eq!(all[0].format, TraceFormat::Go);
}

#[test]
fn raw_text_stands_in_the_span_of_its_trace() {
    let input = "log\nError: a\n    at f (/a.js:1:2)\n\n    at /b.js:3:4\npanic: c\ngoroutine 1 [running]:\nmain.f()\n\t/f.go:3 +0x1\nmain.g()\nthread 'main' panicked at 'x'\n   at g (src/a.rs:1:1)  \n";
    let traces = StackTrace::parse_multiple(input);
    assert_eq!(traces.len(), 3);
    let raws: Vec<Vec<&str>> = traces
        .iter()
        .map(|t| t.frames.iter().map(|f| f.raw.as_str()).collect())
        .collect();
    assert_eq!(
        raws,
        vec![
            vec!["    at f (/a.js:1:2)", "    at /b.js:3:4"],
            vec!["main.f()\n\t/f.go:3 +0x1", "main.g()"],
            vec!["   at g (src/a.rs:1:1)  "],
        ]
    );
    for trace in &traces {
        let region = &input[trace.span.start..trace.span.end];
        for frame in &trace.frames {
            assert!(region.contains(frame.raw.as_str()));
        }
    }
}

const FRAGMENTS: [&str; 40] = [
    "thread 'main' panicked at 'boom'",
    "thread 'é' panicked at é:1:2:",
    "thread 'main' panicked",
    "panic: x",
    "panic:",
    "\tpanic: nested",
    "goroutine 1 [running]:",
    "goroutine 7:",
    "main.f()",
    "main.(*T).g(0x1, ...)",
    "\t/usr/local/go/src/runtime/proc.go:12 +0x1f",
    "  /home/é/main.go:7",
    "\t/a.go:0",
    "Error: x",
    "TypeError: é is not a function",
    "note: run with `RUST_BACKTRACE=1`",
    "Errör: x",
    "    at f (/app/a.js:1:2)",
    "    at /app/b.js:3:4",
    "    at new Ünïcode (/app/é.js:5:6)",
    "    at g (node:internal/x:7:8)",
    "    at h (a.rs:9)",
    "    at i src/lib.rs:10:11",
    "   at j é.rs:12",
    "   at k (a.rs:x:13)",
    "   at l ()",
    "   at m (",
    "   at",
    "   at   ",
    "at n (:1:2)",
    "",
    "   ",
    "\t",
    "\r",
    "é",
    "日本語のログ",
    "stack backtrace:",
    "exit status 2",
    "()",
    "x (é:1:1)",
];

fn check_invariants(input: &str) {
    let traces = StackTrace::parse_multiple(input);
    let mut previous_end = 0;
    for trace in &traces {
        assert!(!trace.frames.is_empty());
        assert!(previous_end <= trace.span.start);
        assert!(trace.span.start < trace.span.end);
        assert!(trace.span.end <= input.len());
        previous_end = trace.span.end;
        let region = &input[trace.span.start..trace.span.end];
        assert!(trace.span.start == 0 || input.as_bytes()[trace.span.start - 1] == b'\n');
        for frame in &trace.frames {
            assert!(!frame.function.is_empty());
            assert!(frame.column.is_none() || frame.line.is_some());
            assert!(frame.line.is_none() || frame.file.is_some());
            assert!(frame.file.as_deref() != Some(""));
            assert!(frame.line != Some(0) && frame.column != Some(0));
            assert!(region.contains(frame.raw.as_str()));
            assert!(frame.function == "<anonymous>" || frame.raw.contains(frame.function.as_str()));
            if let Some(file) = &frame.file {
                assert!(frame.raw.contains(file.as_str()));
            }
        }
    }
    assert_eq!(StackTrace::parse(input), traces.into_iter().next());
}

#[test]
fn invariants_hold_on_many_texts() {
    let mut state: u64 = 0x2545_f491_4f6c_dd1d;
    let mut next = move |bound: usize| {
        state ^= state << 13;
        state ^= state >> 7;
        state ^= state << 17;
        (state % bound as u64) as usize
    };
    for _ in 0..3000 {
        let lines = next(9);
        let mut input = String::new();
        for _ in 0..lines {
            input.push_str(FRAGMENTS[next(FRAGMENTS.len())]);
            input.push_str(["\n", "\n", "\r\n", ""][next(4)]);
        }
        check_invariants(&input);
    }
}
