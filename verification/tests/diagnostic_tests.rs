use java_lsp::compiler::CompileError;
use java_lsp::diagnostic::{cleared_documents, parse_compile_errors, report_position};

#[test]
fn extracts_one_error() {
    let stderr = "/a/Foo.java:10: error: ';' expected\n        return x\n     ^\n";
    let groups = parse_compile_errors(stderr);
    assert_eq!(groups.len(), 1);
    let (uri, errors) = &groups[0];
    assert_eq!(uri, "file:///a/Foo.java");
    assert_eq!(errors.len(), 1);
    assert_eq!(errors[0].row, 10);
    assert_eq!(errors[0].column, 5);
    assert_eq!(errors[0].error_message, "';' expected");
}

#[test]
fn groups_errors_by_file() {
    let stderr = "/a/Foo.java:3: error: cannot find symbol\n        int y = z;\n                ^\n/b/Bar.java:7: error: missing return statement\n    }\n    ^\n/a/Foo.java:9: error: ';' expected\n        int w = 1\n                 ^\n";
    let groups = parse_compile_errors(stderr);
    assert_eq!(groups.len(), 2);
    assert_eq!(groups[0].0, "file:///a/Foo.java");
    assert_eq!(groups[0].1.len(), 2);
    assert_eq!(groups[0].1[0].row, 3);
    assert_eq!(groups[0].1[1].row, 9);
    assert_eq!(groups[1].0, "file:///b/Bar.java");
    assert_eq!(groups[1].1.len(), 1);
    assert_eq!(groups[1].1[0].row, 7);
}

#[test]
fn skips_lines_that_are_not_headers() {
    let stderr = "Note: some general warning\n   indented continuation with .java: marker\n/a/Foo.java:2: error: bad\n  x\n  ^\n1 error\n";
    let groups = parse_compile_errors(stderr);
    assert_eq!(groups.len(), 1);
    assert_eq!(groups[0].1.len(), 1);
    assert_eq!(groups[0].1[0].row, 2);
    assert_eq!(groups[0].1[0].column, 2);
}

#[test]
fn pointer_without_caret_gives_column_zero() {
    let stderr = "/a/Foo.java:4: error: oops\nsource line\nno caret here\n";
    let groups = parse_compile_errors(stderr);
    assert_eq!(groups[0].1[0].column, 0);
}

#[test]
fn unparsable_row_defaults_to_zero() {
    let stderr = "/a/Foo.java:xx: error: odd\nline\n^\n";
    let groups = parse_compile_errors(stderr);
    assert_eq!(groups[0].1[0].row, 0);
}

#[test]
fn header_at_stream_end_is_dropped() {
    let stderr = "/a/Foo.java:4: error: oops\n";
    let groups = parse_compile_errors(stderr);
    assert!(groups.is_empty());
}

#[test]
fn empty_stream_has_no_errors() {
    assert!(parse_compile_errors("").is_empty());
}

#[test]
fn report_position_converts_row() {
    let e = CompileError { row: 10, column: 5, error_message: String::from("m") };
    assert_eq!(report_position(&e), (9, 5));
    let z = CompileError { row: 0, column: 3, error_message: String::from("m") };
    assert_eq!(report_position(&z), (0, 3));
}

#[test]
fn carriage_returns_are_stripped() {
    let stderr = "/a/Foo.java:10: error: m\r\nsource\r\n  ^\r\n";
    let groups = parse_compile_errors(stderr);
    assert_eq!(groups.len(), 1);
    assert_eq!(groups[0].0, "file:///a/Foo.java");
    assert_eq!(groups[0].1[0].row, 10);
    assert_eq!(groups[0].1[0].column, 2);
    assert_eq!(groups[0].1[0].error_message, "m");
}

#[test]
fn overflowing_row_defaults_to_zero() {
    let stderr = "/a/Foo.java:99999999999: error: m\nx\n^\n";
    let groups = parse_compile_errors(stderr);
    assert_eq!(groups[0].1[0].row, 0);
}

#[test]
fn cleared_documents_lists_error_free_uris() {
    let open = vec![
        String::from("file:///a/Foo.java"),
        String::from("file:///b/Bar.java"),
        String::from("file:///c/Baz.java"),
    ];
    let errors = vec![(
        String::from("file:///b/Bar.java"),
        vec![CompileError { row: 1, column: 0, error_message: String::from("m") }],
    )];
    let cleared = cleared_documents(&open, &errors);
    assert_eq!(cleared.len(), 2);
    assert_eq!(cleared[0].0, "file:///a/Foo.java");
    assert!(cleared[0].1.is_empty());
    assert_eq!(cleared[1].0, "file:///c/Baz.java");
    assert!(cleared[1].1.is_empty());
}
