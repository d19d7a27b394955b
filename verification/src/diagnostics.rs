//! Diagnostics: the records the compiler reports and the coloured text it
//! shows for them (ANSI escape codes, error codes, source snippets).
use crate::lexar::chars::{push_char, str_chars, string_from_chars};
use crate::analyzer::types::{error_body, error_code, error_message, lemma_error_code_shape, SemanticError};
use crate::parser::parser::{parse_error_message, ParseError};
use crate::search::{
    find, find_from, occurs_at, find_from_exec, lemma_find_from_found, line_bounds, lines, occurs_at_exec,
    starts_with, strip_prefixes, strip_prefixes_at, trim, trim_at, trim_start, trim_start_at,
};
use crate::text::{decimal, usize_to_string, views};
use vstd::prelude::*;
use vstd::string::{StrSliceExecFns, StringExecFns};

verus! {

/// `s` between the escape sequence that selects the style `code` and the
/// one that resets all styles.
pub open spec fn paint(code: Seq<char>, s: Seq<char>) -> Seq<char> {
    "\x1b["@ + code + "m"@ + s + "\x1b[0m"@
}

pub open spec fn bold_red(s: Seq<char>) -> Seq<char> {
    paint("1;31"@, s)
}

pub open spec fn bold_green(s: Seq<char>) -> Seq<char> {
    paint("1;32"@, s)
}

pub open spec fn bold_yellow(s: Seq<char>) -> Seq<char> {
    paint("1;33"@, s)
}

pub open spec fn bold_cyan(s: Seq<char>) -> Seq<char> {
    paint("1;36"@, s)
}

pub open spec fn cyan(s: Seq<char>) -> Seq<char> {
    paint("36"@, s)
}

pub open spec fn dim(s: Seq<char>) -> Seq<char> {
    paint("2"@, s)
}

pub open spec fn gray(s: Seq<char>) -> Seq<char> {
    paint("90"@, s)
}

fn paint_exec(code: &str, s: &str) -> (r: String)
    ensures
        r@ == paint(code@, s@),
{
    let mut r = String::from_str("\x1b[");
    r.append(code);
    r.append("m");
    r.append(s);
    r.append("\x1b[0m");
    r
}

/// `s` in red.
pub fn color_red(s: &str) -> (r: String)
    ensures
        r@ == paint("31"@, s@),
{
    paint_exec("31", s)
}

/// `s` in bold red.
pub fn color_bold_red(s: &str) -> (r: String)
    ensures
        r@ == bold_red(s@),
{
    paint_exec("1;31", s)
}

/// `s` in bold green.
pub fn color_bold_green(s: &str) -> (r: String)
    ensures
        r@ == bold_green(s@),
{
    paint_exec("1;32", s)
}

/// `s` in yellow.
pub fn color_yellow(s: &str) -> (r: String)
    ensures
        r@ == paint("33"@, s@),
{
    paint_exec("33", s)
}

/// `s` in bold yellow.
pub fn color_bold_yellow(s: &str) -> (r: String)
    ensures
        r@ == bold_yellow(s@),
{
    paint_exec("1;33", s)
}

/// `s` in cyan.
pub fn color_cyan(s: &str) -> (r: String)
    ensures
        r@ == cyan(s@),
{
    paint_exec("36", s)
}

/// `s` in bold cyan.
pub fn color_bold_cyan(s: &str) -> (r: String)
    ensures
        r@ == bold_cyan(s@),
{
    paint_exec("1;36", s)
}

/// `s` dimmed.
pub fn color_dim(s: &str) -> (r: String)
    ensures
        r@ == dim(s@),
{
    paint_exec("2", s)
}

/// `s` in gray.
pub fn color_gray(s: &str) -> (r: String)
    ensures
        r@ == gray(s@),
{
    paint_exec("90", s)
}

/// Where `expected ` and `, found ` first occur in `m`, when both do.
pub open spec fn expected_found(m: Seq<char>) -> Option<(int, int)> {
    match (find(m, "expected "@), find(m, ", found "@)) {
        (Some(e), Some(f)) => Some((e, f)),
        _ => None,
    }
}

/// Where the only `, got ` of a message that starts with `Expected ` is.
pub open spec fn expected_got(m: Seq<char>) -> Option<int> {
    if starts_with(m, "Expected "@) {
        match find(m, ", got "@) {
            Some(g) => if find_from(m, ", got "@, g + ", got "@.len()) is None {
                Some(g)
            } else {
                None
            },
            None => None,
        }
    } else {
        None
    }
}

/// A message can be coloured unless its first `, found ` comes before the
/// end of its first `expected ` (the text between them would be a slice
/// that ends before it starts).
pub open spec fn colorable(m: Seq<char>) -> bool {
    match expected_found(m) {
        Some((e, f)) => e + "expected "@.len() <= f,
        None => true,
    }
}

/// The coloured form of a diagnostic message: in `... expected X, found Y`
/// the expected part green and the found part red; likewise in
/// `Expected X, got Y`; in `Unexpected token: T` the token cyan; any other
/// message unchanged.
pub open spec fn colorized(m: Seq<char>) -> Seq<char> {
    match expected_found(m) {
        Some((e, f)) => m.subrange(0, e + "expected "@.len()) + bold_green(
            trim(m.subrange(e + "expected "@.len(), f)),
        ) + ", found "@ + bold_red(trim(m.subrange(f + ", found "@.len(), m.len() as int))),
        None => match expected_got(m) {
            Some(g) => "Expected "@ + bold_green(trim(strip_prefixes(m.subrange(0, g), "Expected "@)))
                + ", got "@ + bold_red(trim(m.subrange(g + ", got "@.len(), m.len() as int))),
            None => if starts_with(m, "Unexpected token:"@) {
                "Unexpected token: "@ + bold_cyan(trim(strip_prefixes(m, "Unexpected token:"@)))
            } else {
                m
            },
        },
    }
}

/// `s[lo..hi]` without surrounding whitespace, as a `String`.
fn trimmed_text(s: &Vec<char>, lo: usize, hi: usize) -> (r: String)
    requires
        lo <= hi <= s.len(),
    ensures
        r@ == trim(s@.subrange(lo as int, hi as int)),
{
    let (a, b) = trim_at(s, lo, hi);
    string_from_chars(s, a, b)
}

/// Whether `colorize_message` accepts `msg`.
pub fn is_colorable(msg: &str) -> (r: bool)
    ensures
        r == colorable(msg@),
{
    let m = str_chars(msg);
    assert(m@.len() == m.len());
    let expected = str_chars("expected ");
    let found = str_chars(", found ");
    let fe = find_from_exec(&m, &expected, 0);
    let ff = find_from_exec(&m, &found, 0);
    proof {
        lemma_find_from_found(m@, expected@, 0);
    }
    match (fe, ff) {
        (Some(e), Some(f)) => {
            assert(e + expected@.len() <= m@.len());
            e + expected.len() <= f
        },
        _ => true,
    }
}

/// Colours the expected and found parts of a diagnostic message.
pub fn colorize_message(msg: &str) -> (r: String)
    requires
        colorable(msg@),
    ensures
        r@ == colorized(msg@),
{
    let m = str_chars(msg);
    assert(m@.len() == m.len());
    let expected = str_chars("expected ");
    let found = str_chars(", found ");
    let e = find_from_exec(&m, &expected, 0);
    let f = find_from_exec(&m, &found, 0);
    proof {
        lemma_find_from_found(m@, expected@, 0);
        lemma_find_from_found(m@, found@, 0);
    }
    if let Some(e) = e {
        if let Some(f) = f {
            let mut out = string_from_chars(&m, 0, e + expected.len());
            let exp = trimmed_text(&m, e + expected.len(), f);
            out.append(color_bold_green(exp.as_str()).as_str());
            out.append(", found ");
            let fnd = trimmed_text(&m, f + found.len(), m.len());
            out.append(color_bold_red(fnd.as_str()).as_str());
            return out;
        }
    }
    let upper = str_chars("Expected ");
    let got = str_chars(", got ");
    proof {
        reveal_strlit("Expected ");
        reveal_strlit("Unexpected token:");
    }
    if occurs_at_exec(&m, &upper, 0) {
        if let Some(g) = find_from_exec(&m, &got, 0) {
            proof {
                lemma_find_from_found(m@, got@, 0);
            }
            if find_from_exec(&m, &got, g + got.len()).is_none() {
                let a = strip_prefixes_at(&m, &upper, 0, g);
                let exp = trimmed_text(&m, a, g);
                let mut out = String::from_str("Expected ");
                out.append(color_bold_green(exp.as_str()).as_str());
                out.append(", got ");
                let gt = trimmed_text(&m, g + got.len(), m.len());
                out.append(color_bold_red(gt.as_str()).as_str());
                return out;
            }
        }
    }
    let unexpected = str_chars("Unexpected token:");
    if occurs_at_exec(&m, &unexpected, 0) {
        let a = strip_prefixes_at(&m, &unexpected, 0, m.len());
        assert(m@.subrange(0, m@.len() as int) =~= m@);
        let tok = trimmed_text(&m, a, m.len());
        let mut out = String::from_str("Unexpected token: ");
        out.append(color_bold_cyan(tok.as_str()).as_str());
        return out;
    }
    String::from_str(msg)
}

/// The text with every name between single quotes in bold cyan, scanning
/// from the left in state `in_quote`, with `buf` the quoted text not yet
/// closed; an unclosed quote keeps its text plain and gets a closing quote.
pub open spec fn quote_scan(s: Seq<char>, in_quote: bool, buf: Seq<char>) -> Seq<char>
    decreases s.len(),
{
    if s.len() == 0 {
        if in_quote {
            buf + seq!['\'']
        } else {
            Seq::empty()
        }
    } else if s[0] == '\'' {
        if in_quote {
            bold_cyan(buf) + seq!['\''] + quote_scan(s.drop_first(), false, Seq::empty())
        } else {
            seq!['\''] + quote_scan(s.drop_first(), true, Seq::empty())
        }
    } else if in_quote {
        quote_scan(s.drop_first(), true, buf.push(s[0]))
    } else {
        seq![s[0]] + quote_scan(s.drop_first(), false, Seq::empty())
    }
}

/// Colours the names quoted in `input`.
pub fn colorize_quoted_names(input: &str) -> (r: String)
    ensures
        r@ == quote_scan(input@, false, Seq::empty()),
{
    let v = str_chars(input);
    let mut out = String::new();
    let mut in_quote = false;
    let mut buf = String::new();
    let mut i: usize = 0;
    assert(v@.skip(0) =~= v@);
    while i < v.len()
        invariant
            i <= v.len(),
            v@ == input@,
            !in_quote ==> buf@ == Seq::<char>::empty(),
            out@ + quote_scan(v@.skip(i as int), in_quote, buf@) == quote_scan(input@, false, Seq::empty()),
        decreases v.len() - i,
    {
        let ch = v[i];
        let ghost rest = v@.skip(i + 1);
        let ghost old_out = out@;
        let ghost old_buf = buf@;
        assert(v@.skip(i as int).drop_first() =~= rest);
        if ch == '\'' {
            if in_quote {
                let c = color_bold_cyan(buf.as_str());
                out.append(c.as_str());
                push_char(&mut out, '\'');
                buf = String::new();
                in_quote = false;
                assert(old_out + (bold_cyan(old_buf) + seq!['\''] + quote_scan(rest, false, Seq::empty())) =~= out@
                    + quote_scan(rest, false, Seq::empty()));
            } else {
                push_char(&mut out, '\'');
                in_quote = true;
                assert(old_out + (seq!['\''] + quote_scan(rest, true, Seq::empty())) =~= out@ + quote_scan(
                    rest,
                    true,
                    Seq::empty(),
                ));
            }
        } else if in_quote {
            push_char(&mut buf, ch);
        } else {
            push_char(&mut out, ch);
            assert(old_out + (seq![ch] + quote_scan(rest, false, Seq::empty())) =~= out@ + quote_scan(
                rest,
                false,
                Seq::empty(),
            ));
        }
        i = i + 1;
    }
    assert(v@.skip(i as int) =~= Seq::<char>::empty());
    if in_quote {
        out.append(buf.as_str());
        push_char(&mut out, '\'');
    }
    out
}

/// The error code at the first `error[` of `m`, through the `]` of the
/// first `]:` after it, and the text after that `]:` without leading
/// whitespace.
pub open spec fn error_code_parts(m: Seq<char>) -> Option<(Seq<char>, Seq<char>)> {
    match find(m, "error["@) {
        Some(s) => match find_from(m, "]:"@, s) {
            Some(t) => Some((m.subrange(s, t + 1), trim_start(m.subrange(t + 2, m.len() as int)))),
            None => None,
        },
        None => None,
    }
}

/// Splits `error[CODE]:` off a message: the code `error[CODE]`, and the rest.
pub fn extract_error_code(msg: &str) -> (r: Option<(String, String)>)
    ensures
        match r {
            Some((c, rest)) => error_code_parts(msg@) == Some((c@, rest@)),
            None => error_code_parts(msg@) is None,
        },
{
    let m = str_chars(msg);
    let open = str_chars("error[");
    let close = str_chars("]:");
    proof {
        reveal_strlit("]:");
    }
    match find_from_exec(&m, &open, 0) {
        Some(s) => {
            proof {
                lemma_find_from_found(m@, open@, 0);
            }
            match find_from_exec(&m, &close, s) {
                Some(t) => {
                    proof {
                        lemma_find_from_found(m@, close@, s as int);
                    }
                    let a = trim_start_at(&m, t + 2, m.len());
                    let code = string_from_chars(&m, s, t + 1);
                    let rest = string_from_chars(&m, a, m.len());
                    Some((code, rest))
                },
                None => None,
            }
        },
        None => None,
    }
}

/// A semantic message can be coloured when the part `colorize_message`
/// gets can.
pub open spec fn semantic_colorable(m: Seq<char>) -> bool {
    match error_code_parts(m) {
        Some((_, rest)) => colorable(rest),
        None => colorable(m),
    }
}

/// A semantic message with its error code in bold red and the rest coloured.
pub open spec fn semantic_colorized(m: Seq<char>) -> Seq<char> {
    match error_code_parts(m) {
        Some((code, rest)) => bold_red(code) + ": "@ + colorized(rest),
        None => colorized(m),
    }
}

/// Whether `colorize_semantic_message` accepts `msg`.
pub fn is_semantic_colorable(msg: &str) -> (r: bool)
    ensures
        r == semantic_colorable(msg@),
{
    match extract_error_code(msg) {
        Some((_, rest)) => is_colorable(rest.as_str()),
        None => is_colorable(msg),
    }
}

/// Colours a semantic error message, its error code in bold red.
pub fn colorize_semantic_message(msg: &str) -> (r: String)
    requires
        semantic_colorable(msg@),
    ensures
        r@ == semantic_colorized(msg@),
{
    match extract_error_code(msg) {
        Some((code, rest)) => {
            let mut out = color_bold_red(code.as_str());
            out.append(": ");
            out.append(colorize_message(rest.as_str()).as_str());
            out
        },
        None => colorize_message(msg),
    }
}

/// One diagnostic: the file it is about, its message, and, for a parse
/// error, where in the file it is.
#[derive(Debug, Clone)]
pub struct DiagnosticRecord {
    pub filename: String,
    pub message: String,
    pub line: Option<usize>,
    pub col: Option<usize>,
    pub is_parse: bool,
}


/// `n` spaces.
pub open spec fn spaces(n: nat) -> Seq<char> {
    Seq::new(n, |i: int| ' ')
}

/// `d` right-aligned in a field four characters wide (`{:>4}`).
pub open spec fn pad4(d: Seq<char>) -> Seq<char> {
    if d.len() >= 4 {
        d
    } else {
        spaces((4 - d.len()) as nat) + d
    }
}

/// `line` with its character at `idx`, if it has one, in bold cyan.
pub open spec fn highlight(line: Seq<char>, idx: int) -> Seq<char> {
    if 0 <= idx < line.len() {
        line.subrange(0, idx) + bold_cyan(seq![line[idx]]) + line.subrange(idx + 1, line.len() as int)
    } else {
        line
    }
}

/// The position under the caret for the column `col`, counted from 1.
pub open spec fn caret_index(col: nat) -> nat {
    if col > 0 {
        (col - 1) as nat
    } else {
        0
    }
}

/// The lines that show line `line` of `source` (counted from 1) behind a
/// gutter with its number, the character at column `col` highlighted, and a
/// caret under it; nothing when the source has no such line.
pub open spec fn snippet(source: Seq<char>, line: nat, col: nat) -> Seq<Seq<char>> {
    if line == 0 || line > lines(source).len() {
        Seq::empty()
    } else {
        seq![
            pad4(decimal(line)) + " "@ + gray("|"@) + " "@ + highlight(lines(source)[line - 1], caret_index(col) as int),
            spaces(6 + caret_index(col) + 1) + bold_red("^"@),
        ]
    }
}

/// A string of `n` spaces.
fn spaces_text(n: usize) -> (r: String)
    ensures
        r@ == spaces(n as nat),
{
    let mut r = String::new();
    let mut i: usize = 0;
    while i < n
        invariant
            i <= n,
            r@ == spaces(i as nat),
        decreases n - i,
    {
        push_char(&mut r, ' ');
        i = i + 1;
    }
    r
}

/// The text of `n`, right-aligned in four characters.
fn padded_number(n: usize) -> (r: String)
    ensures
        r@ == pad4(decimal(n as nat)),
{
    let d = usize_to_string(n);
    let len = d.as_str().unicode_len();
    if len >= 4 {
        d
    } else {
        let mut r = spaces_text(4 - len);
        r.append(d.as_str());
        r
    }
}

/// The characters `s[a..b]`, the one at `a + idx` highlighted.
fn highlighted(s: &Vec<char>, a: usize, b: usize, idx: usize) -> (r: String)
    requires
        a <= b <= s.len(),
    ensures
        r@ == highlight(s@.subrange(a as int, b as int), idx as int),
{
    if idx < b - a {
        let mut r = string_from_chars(s, a, a + idx);
        let ch = string_from_chars(s, a + idx, a + idx + 1);
        r.append(color_bold_cyan(ch.as_str()).as_str());
        let tail = string_from_chars(s, a + idx + 1, b);
        r.append(tail.as_str());
        r
    } else {
        string_from_chars(s, a, b)
    }
}

/// The lines showing line `line` of `source` with a caret under column
/// `col` (both counted from 1); none when the source has no such line.
pub fn render_source_snippet(source: &str, line: usize, col: usize) -> (r: Vec<String>)
    ensures
        views(r@) == snippet(source@, line as nat, col as nat),
{
    let mut out: Vec<String> = Vec::new();
    if line == 0 {
        assert(views(out@) =~= Seq::<Seq<char>>::empty());
        return out;
    }
    let s = str_chars(source);
    match line_bounds(&s, line - 1) {
        None => {
            assert(views(out@) =~= Seq::<Seq<char>>::empty());
            out
        },
        Some((a, b)) => {
            let mut first = padded_number(line);
            first.append(" ");
            first.append(color_gray("|").as_str());
            first.append(" ");
            let idx: usize = if col > 0 {
                col - 1
            } else {
                0
            };
            first.append(highlighted(&s, a, b, idx).as_str());
            let mut second = spaces_text(6);
            second.append(spaces_text(idx + 1).as_str());
            second.append(color_bold_red("^").as_str());
            assert(second@ =~= spaces(6 + caret_index(col as nat) + 1) + bold_red("^"@));
            out.push(first);
            out.push(second);
            assert(views(out@) =~= snippet(source@, line as nat, col as nat));
            out
        },
    }
}

/// The line `print_parse_error` shows for a parse error.
pub open spec fn parse_error_line(e: ParseError) -> Seq<char> {
    bold_red("error[E2001]"@) + ": "@ + parse_error_message(e)
}

/// The text of a parse error, behind the parse error code.
pub fn parse_error_text(err: &ParseError) -> (r: String)
    ensures
        r@ == parse_error_line(*err),
{
    let mut r = color_bold_red("error[E2001]");
    r.append(": ");
    r.append(err.message().as_str());
    r
}

/// A note, behind `note` in bold yellow.
pub fn note_text(note: &str) -> (r: String)
    ensures
        r@ == bold_yellow("note"@) + ": "@ + note@,
{
    let mut r = color_bold_yellow("note");
    r.append(": ");
    r.append(note);
    r
}

/// The location `line:col`.
pub open spec fn location(line: nat, col: nat) -> Seq<char> {
    decimal(line) + ":"@ + decimal(col)
}

fn location_text(line: usize, col: usize) -> (r: String)
    ensures
        r@ == location(line as nat, col as nat),
{
    let mut r = usize_to_string(line);
    r.append(":");
    r.append(usize_to_string(col).as_str());
    r
}

/// What `print_parse_error_with_source` shows for a parse error in the file
/// `filename` whose text is `source`: for a positioned error its code and
/// location, its coloured message, the source snippet and an empty line;
/// otherwise its code, the file name, its text and an empty line.
pub open spec fn parse_error_report_lines(e: ParseError, source: Seq<char>, filename: Seq<char>) -> Seq<Seq<char>> {
    match e {
        ParseError::UnexpectedTokenAt { msg, line, col } => seq![
            bold_red("error[E2001]"@) + " "@ + dim(filename + ":"@ + location(line as nat, col as nat)),
            colorized(msg@),
        ] + snippet(source, line as nat, col as nat) + seq![Seq::empty()],
        _ => seq![
            bold_red("error[E2001]"@) + " "@ + dim(filename) + ": "@ + parse_error_message(e),
            Seq::empty(),
        ],
    }
}

/// The lines that report a parse error with its place in the source.
pub fn parse_error_report(err: &ParseError, source: &str, filename: &str) -> (r: Vec<String>)
    requires
        err matches ParseError::UnexpectedTokenAt { msg, .. } ==> colorable(msg@),
    ensures
        views(r@) == parse_error_report_lines(*err, source@, filename@),
{
    let mut out: Vec<String> = Vec::new();
    let mut head = color_bold_red("error[E2001]");
    head.append(" ");
    match err {
        ParseError::UnexpectedTokenAt { msg, line, col } => {
            let mut loc = String::from_str(filename);
            loc.append(":");
            loc.append(location_text(*line, *col).as_str());
            head.append(color_dim(loc.as_str()).as_str());
            out.push(head);
            out.push(colorize_message(msg.as_str()));
            let snip = render_source_snippet(source, *line, *col);
            let ghost head_lines = views(out@);
            assert(head_lines =~= seq![
                bold_red("error[E2001]"@) + " "@ + dim(filename@ + ":"@ + location(*line as nat, *col as nat)),
                colorized(msg@),
            ]);
            let mut i: usize = 0;
            while i < snip.len()
                invariant
                    i <= snip.len(),
                    views(out@) == head_lines + views(snip@).take(i as int),
                decreases snip.len() - i,
            {
                let ghost prev = views(out@);
                out.push(snip[i].clone());
                assert(views(out@) =~= prev.push(snip@[i as int]@));
                i = i + 1;
                assert(head_lines + views(snip@).take(i as int) =~= prev.push(snip@[i - 1]@));
            }
            assert(views(snip@).take(snip.len() as int) =~= views(snip@));
            let ghost before = views(out@);
            out.push(String::new());
            assert(views(out@) =~= before.push(Seq::empty()));
            assert(views(out@) =~= parse_error_report_lines(*err, source@, filename@));
        },
        _ => {
            head.append(color_dim(filename).as_str());
            head.append(": ");
            head.append(err.message().as_str());
            out.push(head);
            out.push(String::new());
            assert(views(out@) =~= parse_error_report_lines(*err, source@, filename@));
        },
    }
    out
}

/// `out` followed by `more`.
fn append_lines(out: &mut Vec<String>, more: &Vec<String>)
    ensures
        views(final(out)@) == views(old(out)@) + views(more@),
{
    let ghost start = views(out@);
    let mut i: usize = 0;
    while i < more.len()
        invariant
            i <= more.len(),
            views(out@) == start + views(more@).take(i as int),
        decreases more.len() - i,
    {
        let ghost prev = views(out@);
        out.push(more[i].clone());
        assert(views(out@) =~= prev.push(more@[i as int]@));
        i = i + 1;
        assert(start + views(more@).take(i as int) =~= prev.push(more@[i - 1]@));
    }
    assert(views(more@).take(more.len() as int) =~= views(more@));
}

/// The text of the first source listed for the file `f`.
pub open spec fn source_for(sources: Seq<(String, String)>, f: Seq<char>) -> Option<Seq<char>>
    decreases sources.len(),
{
    if sources.len() == 0 {
        None
    } else if sources[0].0@ == f {
        Some(sources[0].1@)
    } else {
        source_for(sources.drop_first(), f)
    }
}

fn find_source<'a>(sources: &'a Vec<(String, String)>, f: &String) -> (r: Option<&'a String>)
    ensures
        match r {
            Some(s) => source_for(sources@, f@) == Some(s@),
            None => source_for(sources@, f@) is None,
        },
{
    let mut i: usize = 0;
    assert(sources@.skip(0) =~= sources@);
    while i < sources.len()
        invariant
            i <= sources.len(),
            source_for(sources@, f@) == source_for(sources@.skip(i as int), f@),
        decreases sources.len() - i,
    {
        assert(sources@.skip(i as int).drop_first() =~= sources@.skip(i + 1));
        if sources[i].0 == *f {
            return Some(&sources[i].1);
        }
        i = i + 1;
    }
    None
}

/// The text of an optional source.
pub open spec fn text_of(src: Option<&String>) -> Option<Seq<char>> {
    match src {
        Some(s) => Some(s@),
        None => None,
    }
}

/// The lines that report one record of the file `f`, whose source `src` is
/// known or not: a parse error with a location and a source shows its code
/// and location, its coloured message, the snippet and an empty line; with a
/// source, any other record its coloured message and an empty line; without
/// one, a record with a location its code, file, line and message on one
/// line (`error[E0000]` when the message has no code), and any other record
/// its coloured message.
pub open spec fn record_lines(r: DiagnosticRecord, f: Seq<char>, src: Option<Seq<char>>) -> Seq<Seq<char>> {
    let m = r.message@;
    match src {
        Some(source) => match (r.is_parse, r.line, r.col) {
            (true, Some(l), Some(c)) => seq![
                bold_red("error[E2001]"@) + " "@ + dim(location(l as nat, c as nat)),
                colorized(m),
            ] + snippet(source, l as nat, c as nat) + seq![Seq::empty()],
            _ => seq![semantic_colorized(m), Seq::empty()],
        },
        None => match (r.line, r.col) {
            (Some(l), Some(_)) => match error_code_parts(m) {
                Some((code, rest)) => seq![
                    bold_red(code) + " "@ + dim(f) + ":"@ + decimal(l as nat) + ": "@ + colorized(rest),
                ],
                None => seq![
                    bold_red("error[E0000]"@) + " "@ + dim(f) + ":"@ + decimal(l as nat) + ": "@ + colorized(m),
                ],
            },
            _ => seq![semantic_colorized(m)],
        },
    }
}

/// The record's message can be coloured along the path `record_lines` takes.
pub open spec fn record_colorable(r: DiagnosticRecord, has_source: bool) -> bool {
    match (has_source, r.is_parse, r.line, r.col) {
        (true, true, Some(_), Some(_)) => colorable(r.message@),
        _ => semantic_colorable(r.message@),
    }
}

fn record_report(r: &DiagnosticRecord, f: &String, src: Option<&String>) -> (out: Vec<String>)
    requires
        record_colorable(*r, src is Some),
    ensures
        views(out@) == record_lines(*r, f@, text_of(src)),
{
    let mut out: Vec<String> = Vec::new();
    match src {
        Some(source) => {
            if r.is_parse && r.line.is_some() && r.col.is_some() {
                let l = r.line.unwrap();
                let c = r.col.unwrap();
                let mut head = color_bold_red("error[E2001]");
                head.append(" ");
                head.append(color_dim(location_text(l, c).as_str()).as_str());
                out.push(head);
                out.push(colorize_message(r.message.as_str()));
                let ghost head_lines = views(out@);
                assert(head_lines =~= seq![
                    bold_red("error[E2001]"@) + " "@ + dim(location(l as nat, c as nat)),
                    colorized(r.message@),
                ]);
                let snip = render_source_snippet(source.as_str(), l, c);
                append_lines(&mut out, &snip);
                out.push(String::new());
            } else {
                out.push(colorize_semantic_message(r.message.as_str()));
                out.push(String::new());
            }
        },
        None => {
            if r.line.is_some() && r.col.is_some() {
                let l = r.line.unwrap();
                match extract_error_code(r.message.as_str()) {
                    Some((code, rest)) => {
                        let mut t = color_bold_red(code.as_str());
                        t.append(" ");
                        t.append(color_dim(f.as_str()).as_str());
                        t.append(":");
                        t.append(usize_to_string(l).as_str());
                        t.append(": ");
                        t.append(colorize_message(rest.as_str()).as_str());
                        out.push(t);
                    },
                    None => {
                        let mut t = color_bold_red("error[E0000]");
                        t.append(" ");
                        t.append(color_dim(f.as_str()).as_str());
                        t.append(":");
                        t.append(usize_to_string(l).as_str());
                        t.append(": ");
                        t.append(colorize_message(r.message.as_str()).as_str());
                        out.push(t);
                    },
                }
            } else {
                out.push(colorize_semantic_message(r.message.as_str()));
            }
        },
    }
    out
}

/// The files the records are about, each once, in the order they first appear.
pub open spec fn files_of(recs: Seq<DiagnosticRecord>) -> Seq<Seq<char>>
    decreases recs.len(),
{
    if recs.len() == 0 {
        Seq::empty()
    } else {
        let prev = files_of(recs.drop_last());
        if prev.contains(recs.last().filename@) {
            prev
        } else {
            prev.push(recs.last().filename@)
        }
    }
}

/// The lines for the records of the file `f`, in their order.
pub open spec fn file_lines(f: Seq<char>, recs: Seq<DiagnosticRecord>, src: Option<Seq<char>>) -> Seq<Seq<char>>
    decreases recs.len(),
{
    if recs.len() == 0 {
        Seq::empty()
    } else {
        file_lines(f, recs.drop_last(), src) + if recs.last().filename@ == f {
            record_lines(recs.last(), f, src)
        } else {
            Seq::empty()
        }
    }
}

/// The heading line of the group of the file `f`.
pub open spec fn group_heading(f: Seq<char>) -> Seq<char> {
    "\n"@ + cyan("In"@) + " "@ + dim(f)
}

/// For each file in turn, its heading and the lines of its records.
pub open spec fn report_lines(files: Seq<Seq<char>>, recs: Seq<DiagnosticRecord>, sources: Seq<(String, String)>) -> Seq<
    Seq<char>,
>
    decreases files.len(),
{
    if files.len() == 0 {
        Seq::empty()
    } else {
        report_lines(files.drop_last(), recs, sources) + seq![group_heading(files.last())] + file_lines(
            files.last(),
            recs,
            source_for(sources, files.last()),
        )
    }
}

/// Every record's message can be coloured along its path.
pub open spec fn report_colorable(recs: Seq<DiagnosticRecord>, sources: Seq<(String, String)>) -> bool {
    forall|k: int|
        0 <= k < recs.len() ==> #[trigger] record_colorable(
            recs[k],
            source_for(sources, recs[k].filename@) is Some,
        )
}

fn contains_text(v: &Vec<String>, f: &String) -> (r: bool)
    ensures
        r == views(v@).contains(f@),
{
    let mut i: usize = 0;
    while i < v.len()
        invariant
            i <= v.len(),
            forall|k: int| 0 <= k < i ==> v@[k]@ != f@,
        decreases v.len() - i,
    {
        if v[i] == *f {
            assert(views(v@)[i as int] == f@);
            return true;
        }
        i = i + 1;
    }
    assert(!views(v@).contains(f@)) by {
        if views(v@).contains(f@) {
            let k = choose|k: int| 0 <= k < views(v@).len() && views(v@)[k] == f@;
            assert(v@[k]@ == f@);
        }
    }
    false
}

fn distinct_files(recs: &Vec<DiagnosticRecord>) -> (r: Vec<String>)
    ensures
        views(r@) == files_of(recs@),
{
    let mut files: Vec<String> = Vec::new();
    let mut i: usize = 0;
    assert(recs@.take(0) =~= Seq::<DiagnosticRecord>::empty());
    assert(views(files@) =~= Seq::<Seq<char>>::empty());
    while i < recs.len()
        invariant
            i <= recs.len(),
            views(files@) == files_of(recs@.take(i as int)),
        decreases recs.len() - i,
    {
        assert(recs@.take(i + 1).drop_last() =~= recs@.take(i as int));
        if !contains_text(&files, &recs[i].filename) {
            let ghost prev = views(files@);
            files.push(recs[i].filename.clone());
            assert(views(files@) =~= prev.push(recs@[i as int].filename@));
        }
        i = i + 1;
    }
    assert(recs@.take(recs.len() as int) =~= recs@);
    files
}

/// Whether `grouped_report` accepts these records.
pub fn is_report_colorable(records: &Vec<DiagnosticRecord>, sources: &Vec<(String, String)>) -> (r: bool)
    ensures
        r == report_colorable(records@, sources@),
{
    let mut i: usize = 0;
    while i < records.len()
        invariant
            i <= records.len(),
            forall|k: int|
                0 <= k < i ==> #[trigger] record_colorable(
                    records@[k],
                    source_for(sources@, records@[k].filename@) is Some,
                ),
        decreases records.len() - i,
    {
        let r = &records[i];
        let has_source = find_source(sources, &r.filename).is_some();
        let ok = if has_source && r.is_parse && r.line.is_some() && r.col.is_some() {
            is_colorable(r.message.as_str())
        } else {
            is_semantic_colorable(r.message.as_str())
        };
        if !ok {
            assert(!record_colorable(records@[i as int], source_for(sources@, records@[i as int].filename@) is Some));
            return false;
        }
        i = i + 1;
    }
    true
}

/// The diagnostics grouped by file, files in the order they first appear:
/// for each, a heading and the lines of its records, with source snippets
/// where the file's source is among `sources`.
pub fn grouped_report(records: &Vec<DiagnosticRecord>, sources: &Vec<(String, String)>) -> (out: Vec<String>)
    requires
        report_colorable(records@, sources@),
    ensures
        views(out@) == report_lines(files_of(records@), records@, sources@),
{
    let files = distinct_files(records);
    let mut out: Vec<String> = Vec::new();
    let mut i: usize = 0;
    assert(views(files@).take(0) =~= Seq::<Seq<char>>::empty());
    assert(views(out@) =~= Seq::<Seq<char>>::empty());
    while i < files.len()
        invariant
            i <= files.len(),
            report_colorable(records@, sources@),
            views(files@) == files_of(records@),
            views(out@) == report_lines(views(files@).take(i as int), records@, sources@),
        decreases files.len() - i,
    {
        let f = &files[i];
        let mut heading = String::from_str("\n");
        heading.append(color_cyan("In").as_str());
        heading.append(" ");
        heading.append(color_dim(f.as_str()).as_str());
        let ghost before = views(out@);
        out.push(heading);
        assert(views(out@) =~= before + seq![group_heading(f@)]);
        let src = find_source(sources, f);
        let mut j: usize = 0;
        assert(records@.take(0) =~= Seq::<DiagnosticRecord>::empty());
        assert(views(out@) =~= before + seq![group_heading(f@)] + file_lines(f@, records@.take(0), text_of(src)));
        while j < records.len()
            invariant
                j <= records.len(),
                report_colorable(records@, sources@),
                text_of(src) == source_for(sources@, f@),
                views(out@) == before + seq![group_heading(f@)] + file_lines(f@, records@.take(j as int), text_of(src)),
            decreases records.len() - j,
        {
            assert(records@.take(j + 1).drop_last() =~= records@.take(j as int));
            if records[j].filename == *f {
                assert(record_colorable(records@[j as int], source_for(sources@, records@[j as int].filename@) is Some));
                let more = record_report(&records[j], f, src);
                append_lines(&mut out, &more);
            }
            assert(views(out@) =~= before + seq![group_heading(f@)] + file_lines(f@, records@.take(j + 1), text_of(src)));
            j = j + 1;
        }
        assert(records@.take(records.len() as int) =~= records@);
        assert(views(files@).take(i + 1).drop_last() =~= views(files@).take(i as int));
        i = i + 1;
    }
    assert(views(files@).take(files.len() as int) =~= views(files@));
    out
}

/// Positions where the pattern's first character is not cannot start it.
proof fn lemma_find_skip(s: Seq<char>, pat: Seq<char>, from: int, to: int)
    requires
        0 <= from <= to,
        pat.len() > 0,
        to + pat.len() <= s.len(),
        forall|i: int| from <= i < to ==> s[i] != pat[0],
    ensures
        find_from(s, pat, from) == find_from(s, pat, to),
    decreases to - from,
{
    if from < to {
        assert(!occurs_at(s, pat, from)) by {
            if occurs_at(s, pat, from) {
                assert(s.subrange(from, from + pat.len())[0] == s[from]);
            }
        }
        lemma_find_skip(s, pat, from + 1, to);
    }
}

/// Extracting the error code from the message of a semantic error gives
/// back its code, `error[CODE]`, and its description.
pub proof fn lemma_error_code_of_message(e: SemanticError)
    requires
        !(e is ParseErrorInModule),
    ensures
        error_code_parts(error_message(e)) == Some(("error["@ + error_code(e) + "]"@, trim_start(error_body(e)))),
{
    lemma_error_code_shape(e);
    reveal_strlit("error[");
    reveal_strlit("]:");
    reveal_strlit("]: ");
    let m = error_message(e);
    let code = error_code(e);
    let body = error_body(e);
    assert(m == "error["@ + code + "]: "@ + body);
    assert(m.subrange(0, 6) =~= "error["@);
    assert(find(m, "error["@) == Some(0int));
    assert forall|i: int| 0 <= i < 11 implies m[i] != "]:"@[0] by {
        if i < 6 {
            assert(m[i] == "error["@[i]);
        } else {
            assert(m[i] == code[i - 6]);
        }
    }
    lemma_find_skip(m, "]:"@, 0, 11);
    assert(m.subrange(11, 13) =~= "]:"@);
    assert(find_from(m, "]:"@, 0) == Some(11int));
    reveal_strlit("]");
    assert(m.subrange(0, 12) =~= "error["@ + code + "]"@);
    let rest = m.subrange(13, m.len() as int);
    assert(rest.drop_first() =~= body);
    assert(rest[0] == ' ');
    assert(trim_start(rest) == trim_start(body));
}

/// Each file the records are about heads exactly one group: the files of
/// the report are those of the records, each listed once.
pub proof fn lemma_each_file_grouped_once(recs: Seq<DiagnosticRecord>)
    ensures
        files_of(recs).no_duplicates(),
        forall|f: Seq<char>|
            #![trigger files_of(recs).contains(f)]
            files_of(recs).contains(f) <==> exists|i: int| 0 <= i < recs.len() && recs[i].filename@ == f,
    decreases recs.len(),
{
    if recs.len() > 0 {
        let prev = recs.drop_last();
        lemma_each_file_grouped_once(prev);
        let last = recs.last().filename@;
        let fp = files_of(prev);
        if fp.contains(last) {
            assert(files_of(recs) == fp);
        } else {
            assert(files_of(recs) == fp.push(last));
        }
        assert forall|f: Seq<char>| #![trigger files_of(recs).contains(f)]
            files_of(recs).contains(f) implies exists|i: int| 0 <= i < recs.len() && recs[i].filename@ == f by {
            if fp.contains(f) {
                let i = choose|i: int| 0 <= i < prev.len() && prev[i].filename@ == f;
                assert(recs[i] == prev[i]);
            } else {
                assert(fp.push(last).contains(f));
                let k = choose|k: int| 0 <= k < fp.push(last).len() && fp.push(last)[k] == f;
                assert(k == fp.len());
                assert(recs[recs.len() - 1].filename@ == f);
            }
        }
        assert forall|f: Seq<char>| #![trigger files_of(recs).contains(f)]
            (exists|i: int| 0 <= i < recs.len() && recs[i].filename@ == f) implies files_of(recs).contains(f) by {
            let i = choose|i: int| 0 <= i < recs.len() && recs[i].filename@ == f;
            if i < recs.len() - 1 {
                assert(prev[i] == recs[i]);
                assert(fp.contains(f));
                if !fp.contains(last) {
                    let k = choose|k: int| 0 <= k < fp.len() && fp[k] == f;
                    assert(fp.push(last)[k] == f);
                }
            } else {
                if !fp.contains(last) {
                    assert(fp.push(last)[fp.len() as int] == last);
                }
            }
        }
    }
}

} // verus!
