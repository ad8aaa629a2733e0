use panic_pretty::parser::{StackTrace, TraceFormat};

#[test]
fn parser_test_parse_rust_panic() {
    let input = r#"thread 'main' panicked at 'assertion failed'
   at my_function (src/main.rs:10:5)
   at another_func src/lib.rs:20:10"#;

    let trace = StackTrace::parse(input).unwrap();
    assert_eq!(trace.format, TraceFormat::Rust);
    assert_eq!(trace.frames.len(), 2);
    assert_eq!(trace.frames[0].function, "my_function");
    assert_eq!(trace.frames[0].file, Some("src/main.rs".to_string()));
    assert_eq!(trace.frames[0].line, Some(10));
    assert_eq!(trace.frames[0].column, Some(5));
}

#[test]
fn parser_test_parse_go_panic() {
    let input = r#"panic: runtime error
goroutine 1 [running]:
main.doSomething()
	/home/user/main.go:15 +0x50
main.main()
	/home/user/main.go:10 +0x20"#;

    let trace = StackTrace::parse(input).unwrap();
    assert_eq!(trace.format, TraceFormat::Go);
    assert!(trace.frames.len() >= 1);
    assert_eq!(trace.frames[0].file, Some("/home/user/main.go".to_string()));
}

#[test]
fn parser_test_parse_nodejs_error() {
    let input = r#"Error: Something went wrong
    at myFunc (/app/index.js:42:15)
    at Object.<anonymous> (/app/server.js:10:3)"#;

    let trace = StackTrace::parse(input).unwrap();
    assert_eq!(trace.format, TraceFormat::NodeJs);
    assert_eq!(trace.frames.len(), 2);
    assert_eq!(trace.frames[0].function, "myFunc");
    assert_eq!(trace.frames[0].line, Some(42));
}

#[test]
fn test_parse_invalid_input() {
    let input = "This is not a stack trace at all";
    assert!(StackTrace::parse(input).is_none());
}

#[test]
fn parser_test_parse_multiple_traces() {
    let input = r#"thread 'main' panicked at 'error 1'
   at func1 (src/a.rs:5:1)

panic: error 2
goroutine 1 [running]:
main.func2()
	/home/b.go:10 +0x20"#;

    let traces = StackTrace::parse_multiple(input);
    assert_eq!(traces.len(), 2);
    assert_eq!(traces[0].format, TraceFormat::Rust);
    assert_eq!(traces[1].format, TraceFormat::Go);
}

#[test]
fn test_stdlib_detection_rust() {
    let input = r#"thread 'main' panicked
   at std::panic::panic_any (library/std/src/panic.rs:10:5)
   at my_code src/main.rs:20:10"#;

    let trace = StackTrace::parse(input).unwrap();
    assert!(trace.frames[0].is_stdlib);
    assert!(!trace.frames[1].is_stdlib);
}

#[test]
fn test_stdlib_detection_go() {
    let input = r#"panic: error
goroutine 1:
runtime.gopanic()
	/usr/local/go/src/runtime/panic.go:10
main.myFunc()
	/home/main.go:5"#;

    let trace = StackTrace::parse(input).unwrap();
    assert!(trace.frames[0].is_stdlib);
    assert!(!trace.frames[1].is_stdlib);
}

#[test]
fn test_empty_input() {
    let traces = StackTrace::parse_multiple("");
    assert_eq!(traces.len(), 0);
}

#[test]
fn parser_tests_test_parse_rust_panic() {
    let input = r#"thread 'main' panicked at 'assertion failed', src/main.rs:10:5
stack backtrace:
   at rust_panic::main (src/main.rs:10:5)
   at core::ops::function::FnOnce::call_once (core/ops/function.rs:250:5)"#;

    let trace = StackTrace::parse(input).expect("Failed to parse Rust trace");
    assert_eq!(trace.format, TraceFormat::Rust);
    assert!(!trace.frames.is_empty());
    assert_eq!(trace.frames[0].function, "rust_panic::main");
    assert_eq!(trace.frames[0].file, Some("src/main.rs".to_string()));
    assert_eq!(trace.frames[0].line, Some(10));
}

#[test]
fn parser_tests_test_parse_go_panic() {
    let input = r#"panic: runtime error
goroutine 1 [running]:
main.doSomething()
	/home/user/project/main.go:15
main.main()
	/home/user/project/main.go:10"#;

    let trace = StackTrace::parse(input).expect("Failed to parse Go trace");
    assert_eq!(trace.format, TraceFormat::Go);
    assert!(!trace.frames.is_empty());
    assert_eq!(trace.frames[0].function, "main.doSomething");
}

#[test]
fn parser_tests_test_parse_nodejs_error() {
    let input = r#"Error: Something went wrong
    at Object.<anonymous> (/home/user/app.js:10:15)
    at Module._compile (node:internal/modules/cjs/loader:1159:14)"#;

    let trace = StackTrace::parse(input).expect("Failed to parse Node.js trace");
    assert_eq!(trace.format, TraceFormat::NodeJs);
    assert!(!trace.frames.is_empty());
    assert_eq!(trace.frames[0].function, "Object.<anonymous>");
    assert_eq!(trace.frames[0].line, Some(10));
}

#[test]
fn parser_tests_test_parse_multiple_traces() {
    let input = r#"Error: First error
    at test (/app.js:5:10)

thread 'main' panicked at 'second error', main.rs:20:5
   at main (main.rs:20:5)"#;

    let traces = StackTrace::parse_multiple(input);
    assert_eq!(traces.len(), 2);
    assert_eq!(traces[0].format, TraceFormat::NodeJs);
    assert_eq!(traces[1].format, TraceFormat::Rust);
}

#[test]
fn test_stdlib_detection() {
    let rust_input = r#"thread 'main' panicked
   at my_func (src/lib.rs:10:5)
   at core::ops::function::FnOnce::call_once (core/ops/function.rs:250:5)"#;

    let trace = StackTrace::parse(rust_input).unwrap();
    assert!(!trace.frames[0].is_stdlib);
    assert!(trace.frames[1].is_stdlib);
}
