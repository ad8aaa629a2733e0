use panic_pretty::formatter::{pass_through, Formatter};
use panic_pretty::parser::StackTrace;
use panic_pretty::region::parse_region;

fn display(input: &str, filter: bool, no_color: bool) -> String {
    let traces = StackTrace::parse_multiple(input);
    if traces.is_empty() {
        return pass_through(input);
    }
    let formatter = Formatter::new(!no_color, filter, 0);
    formatter.format_all(&traces, &Vec::new())
}

#[test]
fn test_cli_stdin_input() {
    let input = r#"thread 'main' panicked at 'test'
   at main (src/main.rs:10:5)"#;

    let stdout = display(input, false, false);
    assert!(stdout.contains("Stack Trace Format"));
    assert!(stdout.contains("Rust"));
}

#[test]
fn test_cli_file_input() {
    let input = r#"Error: test error
    at testFunc (/app/test.js:5:10)"#;

    let stdout = display(input, false, false);
    assert!(stdout.contains("Node.js"));
}

#[test]
fn test_cli_filter_flag() {
    let input = r#"thread 'main' panicked
   at std::panic::panic_any (std/panic.rs:10:5)
   at my_code src/main.rs:20:10"#;

    let stdout = display(input, true, false);
    assert!(stdout.contains("Filtered frames"));
}

#[test]
fn test_cli_no_color_flag() {
    let input = r#"thread 'main' panicked at 'test'
   at main (src/main.rs:10:5)"#;

    let stdout = display(input, false, true);
    assert!(!stdout.contains("\x1b["));
}

#[test]
fn test_cli_invalid_input() {
    let input = "Not a stack trace";

    let stdout = display(input, false, false);
    assert!(stdout.contains("No stack traces detected"));
    assert_eq!(stdout, "No stack traces detected. Original output:\nNot a stack trace\n");
}

#[test]
fn each_trace_is_what_its_own_region_holds() {
    let input = "log\nError: a\n    at f (/a.js:1:2)\n\npanic: c\ngoroutine 1 [running]:\nmain.f()\n\t/f.go:3\nthread 'main' panicked at 'x'\n   at g (src/a.rs:1:1)\n";
    let traces = StackTrace::parse_multiple(input);
    assert_eq!(traces.len(), 3);
    for trace in &traces {
        let region = &input[trace.span.start..trace.span.end];
        assert_eq!(parse_region(region, trace.span.start).as_ref(), Some(trace));
        let alone = StackTrace::parse(region).unwrap();
        assert_eq!(alone.format, trace.format);
        assert_eq!(alone.message, trace.message);
        assert_eq!(alone.frames, trace.frames);
    }
    assert_eq!(parse_region("", 0), None);
    assert_eq!(parse_region("no trace here\n", 0), None);
}
