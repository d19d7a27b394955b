use doo::diagnostics::{
    color_bold_cyan, color_bold_green, color_bold_red, color_bold_yellow, color_cyan, color_dim,
    color_gray, color_red, color_yellow, colorize_message, colorize_quoted_names,
    colorize_semantic_message, extract_error_code, grouped_report, is_colorable,
    is_report_colorable, is_semantic_colorable, note_text, parse_error_report, parse_error_text,
    render_source_snippet, DiagnosticRecord,
};
use doo::parser::parser::ParseError;

#[test]
fn color_helpers_wrap_in_escape_codes() {
    assert_eq!(color_red("x"), "\x1b[31mx\x1b[0m");
    assert_eq!(color_bold_red("x"), "\x1b[1;31mx\x1b[0m");
    assert_eq!(color_bold_green("x"), "\x1b[1;32mx\x1b[0m");
    assert_eq!(color_yellow("x"), "\x1b[33mx\x1b[0m");
    assert_eq!(color_bold_yellow("x"), "\x1b[1;33mx\x1b[0m");
    assert_eq!(color_cyan("x"), "\x1b[36mx\x1b[0m");
    assert_eq!(color_bold_cyan("x"), "\x1b[1;36mx\x1b[0m");
    assert_eq!(color_dim("x"), "\x1b[2mx\x1b[0m");
    assert_eq!(color_gray(""), "\x1b[90m\x1b[0m");
}

#[test]
fn colorize_expected_found() {
    assert_eq!(
        colorize_message("type mismatch: expected Int, found String"),
        "type mismatch: expected \x1b[1;32mInt\x1b[0m, found \x1b[1;31mString\x1b[0m"
    );
    assert_eq!(
        colorize_message("expected   Int  , found  Bool "),
        "expected \x1b[1;32mInt\x1b[0m, found \x1b[1;31mBool\x1b[0m"
    );
}

#[test]
fn colorize_expected_got() {
    assert_eq!(
        colorize_message("Expected OpenParen, got Semi"),
        "Expected \x1b[1;32mOpenParen\x1b[0m, got \x1b[1;31mSemi\x1b[0m"
    );
    assert_eq!(
        colorize_message("Expected Expected X, got Y"),
        "Expected \x1b[1;32mX\x1b[0m, got \x1b[1;31mY\x1b[0m"
    );
    // Two `, got ` split into three parts: left as it is.
    assert_eq!(colorize_message("Expected a, got b, got c"), "Expected a, got b, got c");
}

#[test]
fn colorize_unexpected_token_and_plain() {
    assert_eq!(
        colorize_message("Unexpected token:   Semi "),
        "Unexpected token: \x1b[1;36mSemi\x1b[0m"
    );
    assert_eq!(colorize_message("plain message"), "plain message");
    assert_eq!(colorize_message(""), "");
}

#[test]
fn colorability() {
    assert!(is_colorable("expected a, found b"));
    assert!(is_colorable("nothing here"));
    assert!(!is_colorable(", found x then expected y"));
    assert!(is_semantic_colorable("error[E0001]: expected a, found b"));
    assert!(!is_semantic_colorable("error[E0001]: , found a expected b"));
}

#[test]
fn quoted_names_are_highlighted() {
    assert_eq!(
        colorize_quoted_names("variable 'x' redeclared"),
        "variable '\x1b[1;36mx\x1b[0m' redeclared"
    );
    assert_eq!(colorize_quoted_names("a 'b"), "a 'b'");
    assert_eq!(colorize_quoted_names("no quotes"), "no quotes");
    assert_eq!(colorize_quoted_names("''"), "'\x1b[1;36m\x1b[0m'");
}

#[test]
fn error_code_extraction() {
    assert_eq!(
        extract_error_code("error[E0001]:   variable 'x'"),
        Some(("error[E0001]".to_string(), "variable 'x'".to_string()))
    );
    assert_eq!(extract_error_code("no code here"), None);
    assert_eq!(extract_error_code("error[E0001] missing colon"), None);
}

#[test]
fn semantic_message_coloring() {
    assert_eq!(
        colorize_semantic_message("error[E0003]: type mismatch: expected Int, found Bool"),
        "\x1b[1;31merror[E0003]\x1b[0m: type mismatch: expected \x1b[1;32mInt\x1b[0m, found \x1b[1;31mBool\x1b[0m"
    );
    assert_eq!(colorize_semantic_message("no code"), "no code");
}

#[test]
fn snippet_shows_line_and_caret() {
    let lines = render_source_snippet("let a = 1;\nlet b = ;\n", 2, 9);
    assert_eq!(
        lines,
        vec![
            "   2 \x1b[90m|\x1b[0m let b = \x1b[1;36m;\x1b[0m".to_string(),
            format!("{}\x1b[1;31m^\x1b[0m", " ".repeat(15)),
        ]
    );
}

#[test]
fn snippet_edge_cases() {
    assert!(render_source_snippet("abc", 0, 1).is_empty());
    assert!(render_source_snippet("abc", 2, 1).is_empty());
    assert!(render_source_snippet("abc\n", 2, 1).is_empty());
    // A `\r\n` line ending is not part of the line.
    let lines = render_source_snippet("a\r\nb", 1, 5);
    assert_eq!(lines[0], "   1 \x1b[90m|\x1b[0m a");
    // Column 0 puts the caret under the first character.
    let lines = render_source_snippet("xy", 1, 0);
    assert_eq!(lines[0], "   1 \x1b[90m|\x1b[0m \x1b[1;36mx\x1b[0my");
    assert_eq!(lines[1], format!("{}\x1b[1;31m^\x1b[0m", " ".repeat(7)));
    // Line numbers wider than the gutter are not cut.
    let src = "\n".repeat(12344) + "z";
    let lines = render_source_snippet(&src, 12345, 1);
    assert_eq!(lines[0], "12345 \x1b[90m|\x1b[0m \x1b[1;36mz\x1b[0m");
}

#[test]
fn parse_error_lines() {
    assert_eq!(
        parse_error_text(&ParseError::EndOfInput),
        "\x1b[1;31merror[E2001]\x1b[0m: unexpected end of input"
    );
    assert_eq!(
        parse_error_text(&ParseError::UnexpectedTokenAt { msg: "bad".to_string(), line: 3, col: 4 }),
        "\x1b[1;31merror[E2001]\x1b[0m: parse error at 3:4: bad"
    );
    assert_eq!(note_text("hi"), "\x1b[1;33mnote\x1b[0m: hi");
}

#[test]
fn parse_error_report_with_source() {
    let err = ParseError::UnexpectedTokenAt { msg: "Expected Semi, got Eof".to_string(), line: 1, col: 3 };
    assert_eq!(
        parse_error_report(&err, "abc", "f.my"),
        vec![
            "\x1b[1;31merror[E2001]\x1b[0m \x1b[2mf.my:1:3\x1b[0m".to_string(),
            "Expected \x1b[1;32mSemi\x1b[0m, got \x1b[1;31mEof\x1b[0m".to_string(),
            "   1 \x1b[90m|\x1b[0m ab\x1b[1;36mc\x1b[0m".to_string(),
            format!("{}\x1b[1;31m^\x1b[0m", " ".repeat(9)),
            String::new(),
        ]
    );
    assert_eq!(
        parse_error_report(&ParseError::UnexpectedToken("oops".to_string()), "abc", "f.my"),
        vec!["\x1b[1;31merror[E2001]\x1b[0m \x1b[2mf.my\x1b[0m: oops".to_string(), String::new()]
    );
}

fn record(file: &str, msg: &str, line: Option<usize>, col: Option<usize>, is_parse: bool) -> DiagnosticRecord {
    DiagnosticRecord { filename: file.to_string(), message: msg.to_string(), line, col, is_parse }
}

#[test]
fn grouped_report_groups_by_file_in_order() {
    let records = vec![
        record("a.my", "Unexpected token: X", Some(1), Some(1), true),
        record("b.my", "error[E0002]: use of undeclared variable 'y'", None, None, false),
        record("a.my", "oops", None, None, false),
    ];
    let sources = vec![("a.my".to_string(), "X".to_string())];
    assert!(is_report_colorable(&records, &sources));
    assert_eq!(
        grouped_report(&records, &sources),
        vec![
            "\n\x1b[36mIn\x1b[0m \x1b[2ma.my\x1b[0m".to_string(),
            "\x1b[1;31merror[E2001]\x1b[0m \x1b[2m1:1\x1b[0m".to_string(),
            "Unexpected token: \x1b[1;36mX\x1b[0m".to_string(),
            "   1 \x1b[90m|\x1b[0m \x1b[1;36mX\x1b[0m".to_string(),
            format!("{}\x1b[1;31m^\x1b[0m", " ".repeat(7)),
            String::new(),
            "oops".to_string(),
            String::new(),
            "\n\x1b[36mIn\x1b[0m \x1b[2mb.my\x1b[0m".to_string(),
            "\x1b[1;31merror[E0002]\x1b[0m: use of undeclared variable 'y'".to_string(),
        ]
    );
}

#[test]
fn grouped_report_without_source_keeps_location_on_one_line() {
    let records = vec![
        record("m.my", "error[E0703]: bad", Some(4), Some(2), true),
        record("m.my", "no code", Some(5), Some(1), true),
    ];
    assert_eq!(
        grouped_report(&records, &vec![]),
        vec![
            "\n\x1b[36mIn\x1b[0m \x1b[2mm.my\x1b[0m".to_string(),
            "\x1b[1;31merror[E0703]\x1b[0m \x1b[2mm.my\x1b[0m:4: bad".to_string(),
            "\x1b[1;31merror[E0000]\x1b[0m \x1b[2mm.my\x1b[0m:5: no code".to_string(),
        ]
    );
    assert!(grouped_report(&vec![], &vec![]).is_empty());
}

#[test]
fn grouped_report_refuses_uncolorable_message() {
    let records = vec![record("a.my", ", found a expected b", None, None, false)];
    assert!(!is_report_colorable(&records, &vec![]));
}

#[test]
fn each_file_heads_one_group() {
    let records = vec![
        record("a.my", "one", None, None, false),
        record("b.my", "two", None, None, false),
        record("a.my", "three", None, None, false),
    ];
    let lines = grouped_report(&records, &vec![]);
    let headings: Vec<&String> = lines.iter().filter(|l| l.starts_with("\n")).collect();
    assert_eq!(headings.len(), 2);
    assert_eq!(lines, vec![
        "\n\x1b[36mIn\x1b[0m \x1b[2ma.my\x1b[0m".to_string(),
        "one".to_string(),
        "three".to_string(),
        "\n\x1b[36mIn\x1b[0m \x1b[2mb.my\x1b[0m".to_string(),
        "two".to_string(),
    ]);
}
