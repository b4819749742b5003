use chromist::pdl::ParseError;
use chromist::resolver::{included_body, pdl_lines, read_error, resolve_line, LineAction};

#[test]
fn plain_lines_are_copied_with_a_newline() {
    match resolve_line("  major 1", false).unwrap() {
        LineAction::Copy(s) => assert_eq!(s, "  major 1\n"),
        LineAction::Include(_) => panic!("not an include"),
    }
}

#[test]
fn include_needs_a_base_directory() {
    match resolve_line("include subfile.pdl", false) {
        Err(ParseError::MissingHeader(msg)) => {
            assert_eq!(msg, "include 'subfile.pdl' found but no base directory provided")
        }
        other => panic!("unexpected {other:?}"),
    }
    match resolve_line("include subfile.pdl", true).unwrap() {
        LineAction::Include(name) => assert_eq!(name, "subfile.pdl"),
        LineAction::Copy(_) => panic!("an include"),
    }
}

#[test]
fn include_without_a_name_is_malformed() {
    match resolve_line("include    ", true) {
        Err(ParseError::MissingHeader(msg)) => assert_eq!(msg, "malformed include directive"),
        other => panic!("unexpected {other:?}"),
    }
}

#[test]
fn included_body_drops_the_license_header() {
    assert_eq!(included_body("// Copyright\n// License\n\ndomain X\n"), "domain X\n");
    assert_eq!(included_body("domain Y\n"), "domain Y\n");
}

#[test]
fn lines_and_read_errors() {
    assert_eq!(pdl_lines("a\r\nb\n\nc"), vec!["a", "b", "", "c"]);
    match read_error("/x/sub.pdl", "not found") {
        ParseError::MissingHeader(m) => assert_eq!(m, "cannot read included file '/x/sub.pdl': not found"),
        other => panic!("unexpected {other:?}"),
    }
}

#[test]
fn passthrough_without_includes() {
    let input = "version\n  major 1\n  minor 0\n";
    let mut out = String::new();
    for line in pdl_lines(input) {
        match resolve_line(&line, false).unwrap() {
            LineAction::Copy(s) => out.push_str(&s),
            LineAction::Include(name) => panic!("unexpected include of {name}"),
        }
    }
    assert_eq!(out, input);
}

#[test]
fn include_without_base_dir_is_error() {
    let input = "include subfile.pdl\n";
    let line = &pdl_lines(input)[0];
    match resolve_line(line, false) {
        Err(ParseError::MissingHeader(msg)) => {
            assert!(msg.contains("no base directory"), "unexpected message: {msg}");
        }
        other => panic!("expected MissingHeader, got {other:?}"),
    }
}
