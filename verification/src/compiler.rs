//! The compilation pipeline's options, results and the steps between the
//! source text and the lowered program.
use crate::analyzer::analyzer::SemanticAnalyzer;
use crate::analyzer::types::{error_message, SemanticError};
use crate::diagnostics::DiagnosticRecord;
use crate::lexar::chars::str_chars;
use crate::lexar::lexer::{lex, tokens_view};
use crate::lexar::spec::lex_spec;
use crate::lexar::token::{Token, TokenType};
use crate::parser::ast::{lemma_stmts_model_len, lemma_stmts_model_push, stmt_model, stmts_model, AstNode, StmtModel};
use crate::parser::parser::{parse_error_message, program_parse, stmt_parse, ParseError, Parser};
use crate::text::{all_digits, decimal, digits_value, lemma_decimal_digits, lemma_decimal_value};
use vstd::prelude::*;
use vstd::string::StringExecFns;

verus! {

/// What to compile and how.
pub struct CompileOptions {
    /// The project directory or the `main.my` file.
    pub input_path: String,
    /// The name of the executable, without extension.
    pub output_name: String,
    /// Print extra information while compiling.
    pub dev_mode: bool,
    /// Print the syntax tree after parsing.
    pub print_ast: bool,
    /// Print the lowered program.
    pub print_mir: bool,
    /// Keep the generated LLVM IR file.
    pub keep_ll: bool,
    /// Keep the generated object file.
    pub keep_obj: bool,
    /// Only check the program; build nothing.
    pub check_only: bool,
}

impl CompileOptions {
    /// The defaults: the current directory, an executable named `output`,
    /// nothing printed or kept, a full build.
    pub fn defaults() -> (r: Self)
        ensures
            r.input_path@ == "."@,
            r.output_name@ == "output"@,
            !r.dev_mode && !r.print_ast && !r.print_mir && !r.keep_ll && !r.keep_obj && !r.check_only,
    {
        CompileOptions {
            input_path: String::from_str("."),
            output_name: String::from_str("output"),
            dev_mode: false,
            print_ast: false,
            print_mir: false,
            keep_ll: false,
            keep_obj: false,
            check_only: false,
        }
    }
}

/// How a compilation ended.
pub struct CompileResult {
    pub success: bool,
    pub error_count: usize,
    /// The executable built, if any.
    pub exe_path: Option<String>,
}

/// Where parsing goes on after an error at `pos`: just past the first `;`
/// at or after `pos`, or the end of the tokens when there is none.
pub open spec fn next_statement_start(toks: Seq<Token>, pos: int) -> int
    decreases toks.len() - pos,
{
    if pos >= toks.len() {
        toks.len() as int
    } else if toks[pos].kind == TokenType::Semi {
        pos + 1
    } else {
        next_statement_start(toks, pos + 1)
    }
}

/// Moves the parser past the next `;`, or to the end of the tokens.
pub fn skip_to_next_statement(parser: &mut Parser)
    requires
        old(parser).current <= old(parser).tokens.len(),
    ensures
        final(parser).tokens == old(parser).tokens,
        final(parser).current == next_statement_start(old(parser).tokens@, old(parser).current as int),
{
    while parser.current < parser.tokens.len()
        invariant
            parser.tokens == old(parser).tokens,
            parser.current <= parser.tokens.len(),
            next_statement_start(parser.tokens@, parser.current as int) == next_statement_start(
                old(parser).tokens@,
                old(parser).current as int,
            ),
        decreases parser.tokens.len() - parser.current,
    {
        if let Some(tok) = parser.peek() {
            if tok.kind == TokenType::Semi {
                parser.advance();
                return;
            }
        }
        parser.advance();
    }
}

/// The diagnostic for a parse error in the file `filename`: a positioned
/// error gives its line, column and bare message; any other its text.
pub open spec fn parse_error_record(e: ParseError, filename: Seq<char>, r: DiagnosticRecord) -> bool {
    &&& r.filename@ == filename
    &&& r.is_parse
    &&& match e {
        ParseError::UnexpectedTokenAt { msg, line, col } => r.message@ == msg@ && r.line == Some(line) && r.col
            == Some(col),
        _ => r.message@ == parse_error_message(e) && r.line is None && r.col is None,
    }
}

/// The record reports some parse error in the file `filename`.
pub open spec fn reports_parse_error(r: DiagnosticRecord, filename: Seq<char>) -> bool {
    exists|e: ParseError| parse_error_record(e, filename, r)
}

/// The diagnostic for a parse error in the file `filename`.
pub fn record_parse_error(e: &ParseError, filename: &String) -> (r: DiagnosticRecord)
    ensures
        parse_error_record(*e, filename@, r),
{
    match e {
        ParseError::UnexpectedTokenAt { msg, line, col } => DiagnosticRecord {
            filename: filename.clone(),
            message: msg.clone(),
            line: Some(*line),
            col: Some(*col),
            is_parse: true,
        },
        _ => DiagnosticRecord {
            filename: filename.clone(),
            message: e.message(),
            line: None,
            col: None,
            is_parse: true,
        },
    }
}

/// Parses every statement of the tokens of the file `filename`, recording
/// a parse error and skipping past the next `;` wherever a statement fails.
pub fn parse_with_recovery(tokens: &Vec<Token>, filename: &String) -> (r: (Vec<AstNode>, Vec<DiagnosticRecord>))
    ensures
        r.0.len() + r.1.len() <= tokens.len(),
        tokens.len() > 0 ==> r.0.len() + r.1.len() > 0,
        forall|i: int| 0 <= i < r.1.len() ==> reports_parse_error(#[trigger] r.1@[i], filename@),
        stmts_model(r.0@) == recovered(tokens@, 0),
        r.1.len() == failures(tokens@, 0),
{
    let mut parser = Parser::new(tokens);
    let mut statements: Vec<AstNode> = Vec::new();
    let mut diagnostics: Vec<DiagnosticRecord> = Vec::new();
    while parser.current < parser.tokens.len()
        invariant
            parser.tokens == tokens,
            parser.current <= tokens.len(),
            statements.len() + diagnostics.len() <= parser.current,
            parser.current > 0 ==> statements.len() + diagnostics.len() > 0,
            forall|i: int| 0 <= i < diagnostics.len() ==> reports_parse_error(#[trigger] diagnostics@[i], filename@),
            recovered(tokens@, 0) == stmts_model(statements@) + recovered(tokens@, parser.current as int),
            failures(tokens@, 0) == diagnostics.len() + failures(tokens@, parser.current as int),
        decreases tokens.len() - parser.current,
    {
        let start = parser.current;
        match parser.parse_statement() {
            Ok(stmt) => {
                let ghost before = statements@;
                proof {
                    lemma_stmts_model_push(before, stmt);
                }
                statements.push(stmt);
                proof {
                    assert(stmts_model(before) + (seq![stmt_model(stmt)] + recovered(tokens@, parser.current as int))
                        =~= stmts_model(statements@) + recovered(tokens@, parser.current as int));
                }
            },
            Err(e) => {
                let rec = record_parse_error(&e, filename);
                diagnostics.push(rec);
                assert(parse_error_record(e, filename@, diagnostics@[diagnostics.len() - 1]));
                skip_to_next_statement(&mut parser);
                proof {
                    lemma_next_statement_start_moves(tokens@, start as int);
                }
            },
        }
    }
    proof {
        assert(stmts_model(statements@) + Seq::empty() =~= stmts_model(statements@));
    }
    (statements, diagnostics)
}

/// The statements that parse when parsing with recovery from `pos`: each
/// statement that parses, in order; where one fails, parsing resumes after
/// the next `;`.
pub open spec fn recovered(toks: Seq<Token>, pos: int) -> Seq<StmtModel>
    decreases toks.len() - pos,
{
    if !(0 <= pos < toks.len()) {
        Seq::empty()
    } else {
        match stmt_parse(toks, pos) {
            Some((s, q)) => if pos < q <= toks.len() {
                seq![s] + recovered(toks, q)
            } else {
                Seq::empty()
            },
            None => {
                let n = next_statement_start(toks, pos);
                if pos < n <= toks.len() {
                    recovered(toks, n)
                } else {
                    Seq::empty()
                }
            },
        }
    }
}

/// How many statements fail to parse when parsing with recovery from `pos`
/// (see `recovered`).
pub open spec fn failures(toks: Seq<Token>, pos: int) -> nat
    decreases toks.len() - pos,
{
    if !(0 <= pos < toks.len()) {
        0
    } else {
        match stmt_parse(toks, pos) {
            Some((s, q)) => if pos < q <= toks.len() {
                failures(toks, q)
            } else {
                0
            },
            None => {
                let n = next_statement_start(toks, pos);
                if pos < n <= toks.len() {
                    1 + failures(toks, n)
                } else {
                    0
                }
            },
        }
    }
}

/// Where the whole program parses, parsing with recovery reports no error
/// and finds the program's statements.
pub proof fn lemma_recovery_agrees(toks: Seq<Token>, pos: int)
    requires
        0 <= pos,
        program_parse(toks, pos) is Some,
    ensures
        failures(toks, pos) == 0,
        recovered(toks, pos) == program_parse(toks, pos).unwrap(),
    decreases toks.len() - pos,
{
    if pos < toks.len() {
        match stmt_parse(toks, pos) {
            Some((s, q)) => {
                if pos < q <= toks.len() {
                    lemma_recovery_agrees(toks, q);
                }
            },
            None => {},
        }
    }
}

/// Skipping after an error always moves past at least one token.
proof fn lemma_next_statement_start_moves(toks: Seq<Token>, pos: int)
    requires
        0 <= pos < toks.len(),
    ensures
        pos < next_statement_start(toks, pos) <= toks.len(),
    decreases toks.len() - pos,
{
    reveal_with_fuel(next_statement_start, 2);
    if toks[pos].kind != TokenType::Semi && pos + 1 < toks.len() {
        lemma_next_statement_start_moves(toks, pos + 1);
    }
}

/// The value of a decimal text as `str::parse::<usize>` reads it: an
/// optional `+`, then one or more ASCII digits whose value fits a `usize`.
pub open spec fn parsed_usize(s: Seq<char>) -> Option<usize> {
    if all_digits(unsigned_digits(s)) && digits_value(unsigned_digits(s)) <= usize::MAX {
        Some(digits_value(unsigned_digits(s)) as usize)
    } else {
        None
    }
}

/// The text without the `+` it may start with.
pub open spec fn unsigned_digits(s: Seq<char>) -> Seq<char> {
    if s.len() > 0 && s[0] == '+' {
        s.drop_first()
    } else {
        s
    }
}

/// Reads a `usize` from its decimal text.
pub fn parse_usize(s: &str) -> (r: Option<usize>)
    ensures
        r == parsed_usize(s@),
{
    let v = str_chars(s);
    let start: usize = if v.len() > 0 && v[0] == '+' {
        1
    } else {
        0
    };
    let ghost digits = v@.subrange(start as int, v@.len() as int);
    assert(digits =~= unsigned_digits(s@));
    if start == v.len() {
        return None;
    }
    let mut acc: usize = 0;
    let mut i: usize = start;
    while i < v.len()
        invariant
            v@ == s@,
            start <= i <= v.len(),
            digits == v@.subrange(start as int, v@.len() as int),
            digits == unsigned_digits(s@),
            forall|j: int| start <= j < i ==> #[trigger] crate::lexar::chars::is_dec_digit(v@[j]),
            acc as int == digits_value(v@.subrange(start as int, i as int)),
        decreases v.len() - i,
    {
        let c = v[i];
        if !('0' <= c && c <= '9') {
            assert(digits[i - start] == c);
            assert(!crate::lexar::chars::is_dec_digit(digits[i - start]));
            return None;
        }
        let d = (c as u32 - '0' as u32) as usize;
        proof {
            assert(v@.subrange(start as int, i + 1).drop_last() =~= v@.subrange(start as int, i as int));
            assert(v@.subrange(start as int, i + 1).last() == c);
        }
        if acc > (usize::MAX - d) / 10 {
            proof {
                assert(digits_value(v@.subrange(start as int, i + 1)) > usize::MAX) by (nonlinear_arith)
                    requires
                        digits_value(v@.subrange(start as int, i + 1)) == acc * 10 + d,
                        acc > (usize::MAX - d) / 10,
                        0 <= d <= 9,
                ;
                lemma_digits_value_prefix(digits, i + 1 - start);
                assert(digits.subrange(0, i + 1 - start) =~= v@.subrange(start as int, i + 1));
            }
            return None;
        }
        acc = acc * 10 + d;
        i += 1;
    }
    assert(v@.subrange(start as int, v.len() as int) =~= digits);
    Some(acc)
}

/// Reading back the decimal text of a `usize` gives the number:
/// `parse_usize` undoes `usize_to_string`.
pub proof fn lemma_parse_usize_roundtrip(n: usize)
    ensures
        parsed_usize(decimal(n as nat)) == Some(n),
{
    lemma_decimal_value(n as nat);
    lemma_decimal_digits(n as nat);
    assert(unsigned_digits(decimal(n as nat)) == decimal(n as nat));
}

/// Taking more digits never lowers the value.
proof fn lemma_digits_value_prefix(s: Seq<char>, k: int)
    requires
        0 <= k <= s.len(),
    ensures
        digits_value(s.subrange(0, k)) <= digits_value(s),
    decreases s.len() - k,
{
    if k < s.len() {
        lemma_digits_value_prefix(s, k + 1);
        assert(s.subrange(0, k + 1).drop_last() =~= s.subrange(0, k));
    } else {
        assert(s.subrange(0, k) =~= s);
    }
}

/// Whether the regular expression `pattern` compiles (`regex::Regex::new`
/// succeeds on it).
pub uninterp spec fn regex_compiles(pattern: Seq<char>) -> bool;

/// The capture groups of the leftmost match of the regular expression
/// `pattern` in `haystack` (`regex::Regex::captures`): group 0 the whole
/// match, then one per group in the order of its `(`, `None` for a group
/// that took no part; `None` when nothing matches.
pub uninterp spec fn regex_groups(pattern: Seq<char>, haystack: Seq<char>) -> Option<Seq<Option<Seq<char>>>>;

/// The texts of a list of optional strings.
pub open spec fn group_texts(v: Seq<Option<String>>) -> Seq<Option<Seq<char>>> {
    Seq::new(
        v.len(),
        |i: int|
            match v[i] {
                Some(s) => Some(s@),
                None => None,
            },
    )
}

/// The texts of the capture groups, when there was a match.
pub open spec fn captured(c: Option<Vec<Option<String>>>) -> Option<Seq<Option<Seq<char>>>> {
    match c {
        Some(v) => Some(group_texts(v@)),
        None => None,
    }
}

/// Compiles `pattern` with `regex::Regex::new` and, where it compiles,
/// matches it against `haystack` with `Regex::captures`. The contract
/// claims that the result is `None` exactly when the pattern does not
/// compile, and that otherwise it holds the texts of the capture groups of
/// the leftmost match, or `None` when nothing matches.
#[verifier::external_body]
fn regex_captures(pattern: &str, haystack: &str) -> (r: Option<Option<Vec<Option<String>>>>)
    ensures
        r is Some <==> regex_compiles(pattern@),
        r matches Some(c) ==> captured(c) == regex_groups(pattern@, haystack@),
{
    match regex::Regex::new(pattern) {
        Ok(re) => Some(match re.captures(haystack) {
            Some(caps) => {
                let mut groups = Vec::new();
                for g in caps.iter() {
                    groups.push(g.map(|m| m.as_str().to_string()));
                }
                Some(groups)
            },
            None => None,
        }),
        Err(_) => None,
    }
}

/// Capture group `i`, if there is one and it took part in the match.
pub open spec fn group(g: Seq<Option<Seq<char>>>, i: int) -> Option<Seq<char>> {
    if 0 <= i < g.len() {
        g[i]
    } else {
        None
    }
}

/// The number in capture group `i`, when it holds one.
pub open spec fn group_number(g: Seq<Option<Seq<char>>>, i: int) -> Option<usize> {
    match group(g, i) {
        Some(t) => parsed_usize(t),
        None => None,
    }
}

/// Line, column and message read from the capture groups of
/// `at (\d+):(\d+): (.+)` in the text of an error; the whole text as the
/// message when nothing matched or the message group is missing.
pub open spec fn location_parts(groups: Option<Seq<Option<Seq<char>>>>, error: Seq<char>) -> (
    Option<usize>,
    Option<usize>,
    Seq<char>,
) {
    match groups {
        Some(g) => (group_number(g, 1), group_number(g, 2), match group(g, 3) {
            Some(t) => t,
            None => error,
        }),
        None => (None, None, error),
    }
}

fn group_at(groups: &Vec<Option<String>>, i: usize) -> (r: Option<&String>)
    ensures
        match r {
            Some(s) => group(group_texts(groups@), i as int) == Some(s@),
            None => group(group_texts(groups@), i as int) is None,
        },
{
    if i < groups.len() {
        match &groups[i] {
            Some(s) => Some(s),
            None => None,
        }
    } else {
        None
    }
}

/// Line, column and message of an error text, from the capture groups of
/// its location.
pub fn location_from_captures(groups: &Option<Vec<Option<String>>>, error: &String) -> (r: (
    Option<usize>,
    Option<usize>,
    String,
))
    ensures
        (r.0, r.1, r.2@) == location_parts(captured(*groups), error@),
{
    match groups {
        Some(g) => {
            let line = match group_at(g, 1) {
                Some(t) => parse_usize(t.as_str()),
                None => None,
            };
            let col = match group_at(g, 2) {
                Some(t) => parse_usize(t.as_str()),
                None => None,
            };
            let msg = match group_at(g, 3) {
                Some(t) => t.clone(),
                None => error.clone(),
            };
            (line, col, msg)
        },
        None => (None, None, error.clone()),
    }
}

/// The pattern that finds `at LINE:COL: MESSAGE` in the text of a parse error.
pub open spec fn location_pattern() -> Seq<char> {
    "at (\\d+):(\\d+): (.+)"@
}

/// The capture groups of the location pattern in `error`; none when the
/// pattern does not compile.
pub open spec fn location_groups(error: Seq<char>) -> Option<Seq<Option<Seq<char>>>> {
    if regex_compiles(location_pattern()) {
        regex_groups(location_pattern(), error)
    } else {
        None
    }
}

/// The diagnostic for a parse error reported from the imported file
/// `file`, with the line, column and message read from its text.
pub fn module_error_record(file: &String, error: &String) -> (r: DiagnosticRecord)
    ensures
        r.filename@ == file@,
        r.is_parse,
        (r.line, r.col, r.message@) == location_parts(location_groups(error@), error@),
{
    let groups = match regex_captures("at (\\d+):(\\d+): (.+)", error.as_str()) {
        Some(g) => g,
        None => None,
    };
    let (line, col, message) = location_from_captures(&groups, error);
    DiagnosticRecord { filename: file.clone(), message, line, col, is_parse: true }
}

/// The diagnostic for a semantic error found in the file `input_file`: a
/// parse error in an imported module is reported against that module with
/// its location; any other error against the input file, with its message.
pub fn semantic_error_record(e: &SemanticError, input_file: &String) -> (r: DiagnosticRecord)
    ensures
        match e {
            SemanticError::ParseErrorInModule { file, error } => r.filename@ == file@ && r.is_parse && (
            r.line, r.col, r.message@) == location_parts(location_groups(error@), error@),
            _ => r.filename@ == input_file@ && !r.is_parse && r.line is None && r.col is None && r.message@
                == error_message(*e),
        },
{
    match e {
        SemanticError::ParseErrorInModule { file, error } => module_error_record(file, error),
        _ => DiagnosticRecord {
            filename: input_file.clone(),
            message: e.message(),
            line: None,
            col: None,
            is_parse: false,
        },
    }
}

/// The record reports the semantic error `e` found in `input_file`, as
/// `semantic_error_record` makes it.
pub open spec fn semantic_record(e: SemanticError, input_file: Seq<char>, r: DiagnosticRecord) -> bool {
    match e {
        SemanticError::ParseErrorInModule { file, error } => r.filename@ == file@ && r.is_parse && (r.line, r.col, r.message@)
            == location_parts(location_groups(error@), error@),
        _ => r.filename@ == input_file && !r.is_parse && r.line is None && r.col is None && r.message@ == error_message(e),
    }
}

/// A checked source file: its statements and the diagnostics found, the
/// parse errors first.
pub struct CheckedSource {
    pub statements: Vec<AstNode>,
    pub diagnostics: Vec<DiagnosticRecord>,
    /// How many of the diagnostics are parse errors.
    pub parse_errors: usize,
}

/// Lexes, parses and analyzes the text of the file `filename`: the parse
/// errors, then the error the analysis stopped at, if any, then the errors
/// the analyzer collected, each as a diagnostic.
pub fn check_source(input: &str, filename: &String, analyzer: &mut SemanticAnalyzer) -> (r: CheckedSource)
    requires
        input@.len() <= usize::MAX / 4,
    ensures
        final(analyzer).keeps_setup(old(analyzer)),
        r.parse_errors <= r.diagnostics.len(),
        exists|toks: Seq<Token>|
            tokens_view(toks) == lex_spec(input@) && r.parse_errors == failures(toks, 0) && r.statements@.len()
                == recovered(toks, 0).len(),
        forall|i: int| 0 <= i < r.parse_errors ==> reports_parse_error(#[trigger] r.diagnostics@[i], filename@),
        ({
            let rest = r.diagnostics@.skip(r.parse_errors as int);
            let collected = final(analyzer).collected_errors@;
            &&& collected.len() <= rest.len() <= collected.len() + 1
            &&& rest.len() == collected.len() + 1 ==> exists|e: SemanticError| semantic_record(e, filename@, rest[0])
            &&& forall|k: int|
                0 <= k < collected.len() ==> semantic_record(
                    collected[k],
                    filename@,
                    #[trigger] rest[rest.len() - collected.len() + k],
                )
        }),
{
    let tokens = lex(input);
    let (mut statements, mut diagnostics) = parse_with_recovery(&tokens, filename);
    let parse_errors = diagnostics.len();
    proof {
        lemma_stmts_model_len(statements@);
    }
    let ghost parsed = diagnostics@;
    let analysis = analyzer.analyze_program(&mut statements);
    if let Err(e) = analysis {
        let rec = semantic_error_record(&e, filename);
        diagnostics.push(rec);
        assert(semantic_record(e, filename@, diagnostics@[parse_errors as int]));
    }
    let ghost first = diagnostics@;
    let mut k: usize = 0;
    while k < analyzer.collected_errors.len()
        invariant
            parse_errors <= first.len() <= parse_errors + 1,
            parsed == first.take(parse_errors as int),
            first.len() == parse_errors + 1 ==> exists|e: SemanticError| semantic_record(e, filename@, first[parse_errors as int]),
            k <= analyzer.collected_errors.len(),
            diagnostics@.len() == first.len() + k,
            diagnostics@.take(first.len() as int) == first,
            forall|j: int|
                0 <= j < k ==> semantic_record(
                    analyzer.collected_errors@[j],
                    filename@,
                    #[trigger] diagnostics@[first.len() + j],
                ),
        decreases analyzer.collected_errors.len() - k,
    {
        let rec = semantic_error_record(&analyzer.collected_errors[k], filename);
        let ghost prev = diagnostics@;
        diagnostics.push(rec);
        assert(diagnostics@.take(first.len() as int) =~= prev.take(first.len() as int));
        k = k + 1;
    }
    let ghost rest = diagnostics@.skip(parse_errors as int);
    assert forall|i: int| 0 <= i < parse_errors implies reports_parse_error(#[trigger] diagnostics@[i], filename@) by {
        assert(diagnostics@.take(first.len() as int)[i] == diagnostics@[i]);
        assert(first.take(parse_errors as int)[i] == first[i]);
    }
    assert forall|j: int| 0 <= j < analyzer.collected_errors@.len() implies semantic_record(
        analyzer.collected_errors@[j],
        filename@,
        #[trigger] rest[rest.len() - analyzer.collected_errors@.len() + j],
    ) by {
        assert(rest[rest.len() - analyzer.collected_errors@.len() + j] == diagnostics@[first.len() + j]);
    }
    proof {
        if first.len() == parse_errors + 1 {
            assert(rest[0] == diagnostics@.take(first.len() as int)[parse_errors as int]);
        }
    }
    CheckedSource { statements, diagnostics, parse_errors }
}

} // verus!
