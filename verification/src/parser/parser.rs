//! Recursive-descent parser from tokens to the syntax tree.
use crate::lexar::token::{Token, TokenType};
use crate::parser::ast::{
    expr_model, exprs_model, field_models, lemma_stmts_model_push, stmts_model, opt_type_model, stmt_model, variant_models, StmtModel, lemma_expr_models_push, lemma_exprs_model_index, lemma_pair_models_push, models,
    pair_models, pattern_models, AstNode, ExprModel, Pattern, PatternModel, TypeModel, TypeNode,
};
use crate::text::{all_digits, concat, decimal, digits_value, parse_i64, usize_to_string, views};
use vstd::prelude::*;
use vstd::string::StringExecFns;

verus! {

/// Why parsing stopped.
#[derive(Debug)]
pub enum ParseError {
    /// A message with no position.
    UnexpectedToken(String),
    /// A message about the token at `line`:`col`.
    UnexpectedTokenAt { msg: String, line: usize, col: usize },
    /// The tokens ran out where more were needed.
    EndOfInput,
}

/// The text of a parse error: `parse error at L:C: msg` for a positioned
/// error, the message itself for an unpositioned one, and
/// `unexpected end of input` at the end of the tokens.
pub open spec fn parse_error_message(e: ParseError) -> Seq<char> {
    match e {
        ParseError::UnexpectedToken(m) => m@,
        ParseError::UnexpectedTokenAt { msg, line, col } => "parse error at "@ + decimal(line as nat) + ":"@
            + decimal(col as nat) + ": "@ + msg@,
        ParseError::EndOfInput => "unexpected end of input"@,
    }
}

impl ParseError {
    /// The text of the error.
    pub fn message(&self) -> (r: String)
        ensures
            r@ == parse_error_message(*self),
    {
        match self {
            ParseError::UnexpectedToken(m) => m.clone(),
            ParseError::UnexpectedTokenAt { msg, line, col } => {
                let mut s = String::from_str("parse error at ");
                let l = usize_to_string(*line);
                s.append(l.as_str());
                s.append(":");
                let c = usize_to_string(*col);
                s.append(c.as_str());
                s.append(": ");
                s.append(msg.as_str());
                s
            },
            ParseError::EndOfInput => String::from_str("unexpected end of input"),
        }
    }
}

/// The error reports a token at or after `pos`, or the end of the tokens.
pub open spec fn error_at_or_after(toks: Seq<Token>, pos: int, e: ParseError) -> bool {
    match e {
        ParseError::UnexpectedTokenAt { line, col, .. } => exists|k: int|
            pos <= k < toks.len() && #[trigger] toks[k].line == line && toks[k].col == col,
        ParseError::EndOfInput => true,
        ParseError::UnexpectedToken(_) => false,
    }
}

/// What every parsing step promises: on success it consumed at least one
/// token and stayed within the tokens; on failure the error points at a
/// token it could not accept.
pub open spec fn step_ok<T>(toks: Seq<Token>, pos: int, r: Result<(T, usize), ParseError>) -> bool {
    match r {
        Ok((_, p)) => pos < p <= toks.len(),
        Err(e) => error_at_or_after(toks, pos, e),
    }
}

pub open spec fn kind_at(toks: Seq<Token>, pos: int) -> Option<TokenType> {
    if 0 <= pos < toks.len() {
        Some(toks[pos].kind)
    } else {
        None
    }
}

fn peek_kind(toks: &Vec<Token>, pos: usize) -> (r: Option<TokenType>)
    ensures
        r == kind_at(toks@, pos as int),
{
    if pos < toks.len() {
        Some(toks[pos].kind)
    } else {
        None
    }
}

/// An error about the token at `pos` (or the end of input).
fn error_at(toks: &Vec<Token>, pos: usize, msg: String) -> (e: ParseError)
    ensures
        error_at_or_after(toks@, pos as int, e),
        pos < toks.len() ==> e == (ParseError::UnexpectedTokenAt {
            msg,
            line: toks@[pos as int].line,
            col: toks@[pos as int].col,
        }),
        pos >= toks.len() ==> e is EndOfInput,
{
    if pos < toks.len() {
        let e = ParseError::UnexpectedTokenAt { msg, line: toks[pos].line, col: toks[pos].col };
        assert(toks@[pos as int].line == toks[pos as int].line);
        e
    } else {
        ParseError::EndOfInput
    }
}

/// "Expected `what`, got K" for the token at `pos`.
fn expected_error(toks: &Vec<Token>, pos: usize, what: &str) -> (e: ParseError)
    ensures
        error_at_or_after(toks@, pos as int, e),
        pos >= toks.len() ==> e is EndOfInput,
        pos < toks.len() ==> (e matches ParseError::UnexpectedTokenAt { line, col, .. } && line
            == toks@[pos as int].line && col == toks@[pos as int].col),
{
    if pos < toks.len() {
        let mut m = concat("Expected ", what);
        m.append(", got ");
        m.append(toks[pos].kind.name());
        error_at(toks, pos, m)
    } else {
        ParseError::EndOfInput
    }
}

/// Consumes one token of kind `kind` at `pos`.
fn expect_at(toks: &Vec<Token>, pos: usize, kind: TokenType) -> (r: Result<usize, ParseError>)
    requires
        pos <= toks.len(),
    ensures
        r matches Ok(p) ==> p == pos + 1 && pos < toks.len() && toks@[pos as int].kind == kind,
        r is Ok <==> (pos < toks.len() && toks@[pos as int].kind == kind),
        r matches Err(e) ==> error_at_or_after(toks@, pos as int, e),
        r matches Err(e) ==> (pos == toks.len() <==> e is EndOfInput),
{
    if pos < toks.len() && toks[pos].kind == kind {
        Ok(pos + 1)
    } else {
        Err(expected_error(toks, pos, kind.name()))
    }
}

/// Consumes an identifier at `pos` and gives its text.
fn expect_ident(toks: &Vec<Token>, pos: usize) -> (r: Result<(String, usize), ParseError>)
    requires
        pos <= toks.len(),
    ensures
        step_ok(toks@, pos as int, r),
        r matches Ok((name, p)) ==> p == pos + 1 && toks@[pos as int].kind == TokenType::Identifier
            && name@ == toks@[pos as int].value@,
        r is Ok <==> (pos < toks.len() && toks@[pos as int].kind == TokenType::Identifier),
{
    if pos < toks.len() && toks[pos].kind == TokenType::Identifier {
        Ok((toks[pos].value.clone(), pos + 1))
    } else {
        Err(expected_error(toks, pos, "Identifier"))
    }
}

fn is_ident_text(toks: &Vec<Token>, pos: usize, text: &str) -> (r: bool)
    ensures
        r == (pos < toks.len() && toks@[pos as int].kind == TokenType::Identifier && toks@[pos as int].value@
            == text@),
{
    if pos < toks.len() && toks[pos].kind == TokenType::Identifier {
        let t = String::from_str(text);
        toks[pos].value == t
    } else {
        false
    }
}

/// Whether the token at `pos` is `_` (which the lexer does not accept as a word).
fn is_underscore(toks: &Vec<Token>, pos: usize) -> (r: bool)
    ensures
        r == (pos < toks.len() && (toks@[pos as int].kind == TokenType::Underscore || (toks@[pos as int].kind
            == TokenType::Unknown && toks@[pos as int].value@ == "_"@))),
{
    if pos < toks.len() {
        if toks[pos].kind == TokenType::Underscore {
            return true;
        }
        if toks[pos].kind == TokenType::Unknown {
            let t = String::from_str("_");
            return toks[pos].value == t;
        }
    }
    false
}

// ---------------------------------------------------------------------------
// Types
// ---------------------------------------------------------------------------
/// The type written at `pos` and the position just after it, if a type is
/// written there: `Int`, `Float`, `Str` or `String`, `Bool`, `Void`,
/// `Array<T>`, `Map<K, V>`, `[T]`, `{K: V}`, `(T, ...)`, or another name.
pub open spec fn type_parse(toks: Seq<Token>, pos: int) -> Option<(TypeModel, int)>
    decreases toks.len() - pos, 0nat,
{
    if !(0 <= pos < toks.len()) {
        None
    } else {
        let t = toks[pos];
        if t.kind == TokenType::Identifier {
            let name = t.value@;
            if name == "Int"@ {
                Some((TypeModel::Int, pos + 1))
            } else if name == "Float"@ {
                Some((TypeModel::Float, pos + 1))
            } else if name == "Str"@ || name == "String"@ {
                Some((TypeModel::Str, pos + 1))
            } else if name == "Bool"@ {
                Some((TypeModel::Bool, pos + 1))
            } else if name == "Void"@ {
                Some((TypeModel::Void, pos + 1))
            } else if name == "Array"@ {
                if kind_at(toks, pos + 1) == Some(TokenType::Lt) {
                    match type_parse(toks, pos + 2) {
                        Some((inner, q)) => if kind_at(toks, q) == Some(TokenType::Gt) {
                            Some((TypeModel::Array(Box::new(inner)), q + 1))
                        } else {
                            None
                        },
                        None => None,
                    }
                } else {
                    None
                }
            } else if name == "Map"@ {
                if kind_at(toks, pos + 1) == Some(TokenType::Lt) {
                    match type_parse(toks, pos + 2) {
                        Some((k, q)) => if q > pos && kind_at(toks, q) == Some(TokenType::Comma) {
                            match type_parse(toks, q + 1) {
                                Some((v, e)) => if kind_at(toks, e) == Some(TokenType::Gt) {
                                    Some((TypeModel::MapOf(Box::new(k), Box::new(v)), e + 1))
                                } else {
                                    None
                                },
                                None => None,
                            }
                        } else {
                            None
                        },
                        None => None,
                    }
                } else {
                    None
                }
            } else {
                Some((TypeModel::TypeRef(name), pos + 1))
            }
        } else if t.kind == TokenType::OpenBracket {
            match type_parse(toks, pos + 1) {
                Some((inner, q)) => if kind_at(toks, q) == Some(TokenType::CloseBracket) {
                    Some((TypeModel::Array(Box::new(inner)), q + 1))
                } else {
                    None
                },
                None => None,
            }
        } else if t.kind == TokenType::OpenBrace {
            match type_parse(toks, pos + 1) {
                Some((k, q)) => if q > pos && kind_at(toks, q) == Some(TokenType::Colon) {
                    match type_parse(toks, q + 1) {
                        Some((v, e)) => if kind_at(toks, e) == Some(TokenType::CloseBrace) {
                            Some((TypeModel::MapOf(Box::new(k), Box::new(v)), e + 1))
                        } else {
                            None
                        },
                        None => None,
                    }
                } else {
                    None
                },
                None => None,
            }
        } else if t.kind == TokenType::OpenParen {
            match type_list(toks, pos + 1) {
                Some((ts, q)) => if kind_at(toks, q) == Some(TokenType::CloseParen) {
                    Some((TypeModel::Tuple(ts), q + 1))
                } else {
                    None
                },
                None => None,
            }
        } else {
            None
        }
    }
}

/// The comma-separated types written from `pos` and the position after the
/// last, if at least one type is written there.
pub open spec fn type_list(toks: Seq<Token>, pos: int) -> Option<(Seq<TypeModel>, int)>
    decreases toks.len() - pos, 1nat,
{
    match type_parse(toks, pos) {
        Some((t, q)) => if q <= pos {
            None
        } else if kind_at(toks, q) == Some(TokenType::Comma) {
            match type_list(toks, q + 1) {
                Some((rest, e)) => Some((seq![t] + rest, e)),
                None => None,
            }
        } else {
            Some((seq![t], q))
        },
        None => None,
    }
}

/// `done` in front of the types of a list parse, if it succeeded.
pub open spec fn after_types(done: Seq<TypeModel>, rest: Option<(Seq<TypeModel>, int)>) -> Option<(Seq<TypeModel>, int)> {
    match rest {
        Some((ts, e)) => Some((done + ts, e)),
        None => None,
    }
}

/// Parses a type: `Int`, `Float`, `Str`/`String`, `Bool`, `Void`,
/// `Array<T>`, `Map<K, V>`, `[T]`, `{K: V}`, `(T, ...)`, or another name.
pub fn parse_type_at(toks: &Vec<Token>, pos: usize) -> (r: Result<(TypeNode, usize), ParseError>)
    requires
        pos <= toks.len(),
    ensures
        step_ok(toks@, pos as int, r),
        match r {
            Ok((t, p)) => type_parse(toks@, pos as int) == Some((t.model(), p as int)),
            Err(_) => type_parse(toks@, pos as int) is None,
        },
    decreases toks.len() - pos,
{
    match peek_kind(toks, pos) {
        Some(TokenType::Identifier) => {
            let p = pos + 1;
            if is_ident_text(toks, pos, "Int") {
                Ok((TypeNode::Int, p))
            } else if is_ident_text(toks, pos, "Float") {
                Ok((TypeNode::Float, p))
            } else if is_ident_text(toks, pos, "Str") || is_ident_text(toks, pos, "String") {
                Ok((TypeNode::String, p))
            } else if is_ident_text(toks, pos, "Bool") {
                Ok((TypeNode::Bool, p))
            } else if is_ident_text(toks, pos, "Void") {
                Ok((TypeNode::Void, p))
            } else if is_ident_text(toks, pos, "Array") {
                let p = expect_at(toks, p, TokenType::Lt)?;
                let (inner, p) = parse_type_at(toks, p)?;
                let p = expect_at(toks, p, TokenType::Gt)?;
                Ok((TypeNode::Array(Box::new(inner)), p))
            } else if is_ident_text(toks, pos, "Map") {
                let p = expect_at(toks, p, TokenType::Lt)?;
                let (k, p) = parse_type_at(toks, p)?;
                let p = expect_at(toks, p, TokenType::Comma)?;
                let (v, p) = parse_type_at(toks, p)?;
                let p = expect_at(toks, p, TokenType::Gt)?;
                Ok((TypeNode::MapOf(Box::new(k), Box::new(v)), p))
            } else {
                Ok((TypeNode::TypeRef(toks[pos].value.clone()), p))
            }
        },
        Some(TokenType::OpenBracket) => {
            let (inner, p) = parse_type_at(toks, pos + 1)?;
            let p = expect_at(toks, p, TokenType::CloseBracket)?;
            Ok((TypeNode::Array(Box::new(inner)), p))
        },
        Some(TokenType::OpenBrace) => {
            let (k, p) = parse_type_at(toks, pos + 1)?;
            let p = expect_at(toks, p, TokenType::Colon)?;
            let (v, p) = parse_type_at(toks, p)?;
            let p = expect_at(toks, p, TokenType::CloseBrace)?;
            Ok((TypeNode::MapOf(Box::new(k), Box::new(v)), p))
        },
        Some(TokenType::OpenParen) => {
            let mut items: Vec<TypeNode> = Vec::new();
            let mut p = pos + 1;
            assert(models(items@) =~= Seq::<TypeModel>::empty());
            loop
                invariant_except_break
                    pos < p <= toks.len(),
                    type_list(toks@, pos + 1) == after_types(models(items@), type_list(toks@, p as int)),
                    kind_at(toks@, pos as int) == Some(TokenType::OpenParen),
                ensures
                    pos < p <= toks.len(),
                    type_list(toks@, pos + 1) == Some((models(items@), p as int)),
                decreases toks.len() - p,
            {
                let ghost before = items@;
                let (t, q) = match parse_type_at(toks, p) {
                    Ok(x) => x,
                    Err(e) => {
                        assert(type_list(toks@, p as int) is None);
                        assert(type_list(toks@, pos + 1) is None);
                        return Err(e);
                    },
                };
                items.push(t);
                assert(items@.drop_last() =~= before);
                p = q;
                if peek_kind(toks, p) == Some(TokenType::Comma) {
                    p = p + 1;
                    proof {
                        match type_list(toks@, p as int) {
                            Some((rest, e)) => {
                                assert(models(before) + (seq![t.model()] + rest) =~= models(items@) + rest);
                            },
                            None => {},
                        }
                    }
                } else {
                    assert(models(before) + seq![t.model()] =~= models(items@));
                    break ;
                }
            }
            let p = expect_at(toks, p, TokenType::CloseParen)?;
            Ok((TypeNode::Tuple(items), p))
        },
        _ => Err(expected_error(toks, pos, "type")),
    }
}

// ---------------------------------------------------------------------------
// Patterns
// ---------------------------------------------------------------------------
/// The token at `pos` is `_`.
pub open spec fn underscore_at(toks: Seq<Token>, pos: int) -> bool {
    0 <= pos < toks.len() && (toks[pos].kind == TokenType::Underscore || (toks[pos].kind == TokenType::Unknown
        && toks[pos].value@ == "_"@))
}

/// The binding pattern written at `pos` and the position just after it, if
/// one is written there: `_`, a name, or `(p, ...)`.
pub open spec fn pattern_parse(toks: Seq<Token>, pos: int) -> Option<(PatternModel, int)>
    decreases toks.len() - pos, 0nat,
{
    if !(0 <= pos < toks.len()) {
        None
    } else if underscore_at(toks, pos) {
        Some((PatternModel::Wildcard, pos + 1))
    } else if toks[pos].kind == TokenType::Identifier {
        Some((PatternModel::Identifier(toks[pos].value@), pos + 1))
    } else if toks[pos].kind == TokenType::OpenParen {
        match pattern_list(toks, pos + 1) {
            Some((ps, q)) => if kind_at(toks, q) == Some(TokenType::CloseParen) {
                Some((PatternModel::Tuple(ps), q + 1))
            } else {
                None
            },
            None => None,
        }
    } else {
        None
    }
}

/// The comma-separated patterns written from `pos` and the position after
/// the last, if at least one pattern is written there.
pub open spec fn pattern_list(toks: Seq<Token>, pos: int) -> Option<(Seq<PatternModel>, int)>
    decreases toks.len() - pos, 1nat,
{
    match pattern_parse(toks, pos) {
        Some((t, q)) => if q <= pos {
            None
        } else if kind_at(toks, q) == Some(TokenType::Comma) {
            match pattern_list(toks, q + 1) {
                Some((rest, e)) => Some((seq![t] + rest, e)),
                None => None,
            }
        } else {
            Some((seq![t], q))
        },
        None => None,
    }
}

/// `done` in front of the patterns of a list parse, if it succeeded.
pub open spec fn after_patterns(done: Seq<PatternModel>, rest: Option<(Seq<PatternModel>, int)>) -> Option<
    (Seq<PatternModel>, int),
> {
    match rest {
        Some((ps, e)) => Some((done + ps, e)),
        None => None,
    }
}

/// Parses a binding pattern: a name, `_`, or a parenthesized list of patterns.
pub fn parse_pattern_at(toks: &Vec<Token>, pos: usize) -> (r: Result<(Pattern, usize), ParseError>)
    requires
        pos <= toks.len(),
    ensures
        step_ok(toks@, pos as int, r),
        match r {
            Ok((t, p)) => pattern_parse(toks@, pos as int) == Some((t.model(), p as int)),
            Err(_) => pattern_parse(toks@, pos as int) is None,
        },
    decreases toks.len() - pos,
{
    if is_underscore(toks, pos) {
        return Ok((Pattern::Wildcard, pos + 1));
    }
    match peek_kind(toks, pos) {
        Some(TokenType::Identifier) => Ok((Pattern::Identifier(toks[pos].value.clone()), pos + 1)),
        Some(TokenType::OpenParen) => {
            let mut items: Vec<Pattern> = Vec::new();
            let mut p = pos + 1;
            assert(pattern_models(items@) =~= Seq::<PatternModel>::empty());
            loop
                invariant_except_break
                    pos < p <= toks.len(),
                    pattern_list(toks@, pos + 1) == after_patterns(pattern_models(items@), pattern_list(toks@, p as int)),
                    kind_at(toks@, pos as int) == Some(TokenType::OpenParen),
                    !underscore_at(toks@, pos as int),
                ensures
                    pos < p <= toks.len(),
                    pattern_list(toks@, pos + 1) == Some((pattern_models(items@), p as int)),
                decreases toks.len() - p,
            {
                let ghost before = items@;
                let (t, q) = match parse_pattern_at(toks, p) {
                    Ok(x) => x,
                    Err(e) => {
                        assert(pattern_list(toks@, p as int) is None);
                        assert(pattern_list(toks@, pos + 1) is None);
                        return Err(e);
                    },
                };
                items.push(t);
                assert(items@.drop_last() =~= before);
                p = q;
                if peek_kind(toks, p) == Some(TokenType::Comma) {
                    p = p + 1;
                    proof {
                        match pattern_list(toks@, p as int) {
                            Some((rest, e)) => {
                                assert(pattern_models(before) + (seq![t.model()] + rest) =~= pattern_models(items@) + rest);
                            },
                            None => {},
                        }
                    }
                } else {
                    assert(pattern_models(before) + seq![t.model()] =~= pattern_models(items@));
                    break ;
                }
            }
            let p = expect_at(toks, p, TokenType::CloseParen)?;
            Ok((Pattern::Tuple(items), p))
        },
        _ => Err(expected_error(toks, pos, "pattern")),
    }
}

/// The value of an integer literal's text: decimal digits whose value fits
/// an `i64`.
pub open spec fn number_value(t: Seq<char>) -> Option<i64> {
    if all_digits(t) && digits_value(t) <= i64::MAX {
        Some(digits_value(t) as i64)
    } else {
        None
    }
}

/// Whether `k` is an operator of the binary precedence level `lvl`
/// (8 `||`, 7 `&&`, 6 comparisons, 4 `+ -`, 3 `* / %`).
pub open spec fn level_op(lvl: nat, k: TokenType) -> bool {
    if lvl == 8 {
        k == TokenType::OrOr
    } else if lvl == 7 {
        k == TokenType::AndAnd
    } else if lvl == 6 {
        is_comparison(k)
    } else if lvl == 4 {
        k == TokenType::Plus || k == TokenType::Minus
    } else if lvl == 3 {
        k == TokenType::Star || k == TokenType::Slash || k == TokenType::Percent
    } else {
        false
    }
}

/// The expression written at `pos` and the position just after it, if one
/// is written there.
pub open spec fn expr_parse(toks: Seq<Token>, pos: int) -> Option<(ExprModel, int)> {
    level_parse(toks, pos, 8)
}

/// The expression of precedence level `lvl` or tighter written at `pos`,
/// and the position after it: 8 to 6 and 4, 3 are binary levels whose
/// operators associate to the left, 5 an optional range `a..b` or `a..=b`,
/// 2 prefix `-` and `!`, 1 calls and indexing after a primary, 0 a
/// primary (a literal, a name, `_`, a parenthesized expression or tuple, an
/// array or a map).
pub open spec fn level_parse(toks: Seq<Token>, pos: int, lvl: nat) -> Option<(ExprModel, int)>
    decreases toks.len() - pos, lvl,
{
    if !(0 <= pos <= toks.len()) {
        None
    } else if lvl == 0 {
        if pos == toks.len() {
            None
        } else if underscore_at(toks, pos) {
            Some((ExprModel::Ident("_"@), pos + 1))
        } else {
            let t = toks[pos];
            if t.kind == TokenType::Number {
                match number_value(t.value@) {
                    Some(v) => Some((ExprModel::Number(v), pos + 1)),
                    None => None,
                }
            } else if t.kind == TokenType::Float {
                Some((ExprModel::Float(t.value@), pos + 1))
            } else if t.kind == TokenType::String {
                Some((ExprModel::Str(t.value@), pos + 1))
            } else if t.kind == TokenType::Boolean {
                Some((ExprModel::Bool(t.value@ == "true"@), pos + 1))
            } else if t.kind == TokenType::Identifier {
                Some((ExprModel::Ident(t.value@), pos + 1))
            } else if t.kind == TokenType::OpenParen {
                match level_parse(toks, pos + 1, 8) {
                    Some((first, p)) => if p > pos && kind_at(toks, p) == Some(TokenType::Comma) {
                        match list_parse(toks, p + 1, TokenType::CloseParen) {
                            Some((rest, q)) => if kind_at(toks, q) == Some(TokenType::CloseParen) {
                                Some((ExprModel::TupleOf(seq![first] + rest), q + 1))
                            } else {
                                None
                            },
                            None => None,
                        }
                    } else if kind_at(toks, p) == Some(TokenType::CloseParen) {
                        Some((first, p + 1))
                    } else {
                        None
                    },
                    None => None,
                }
            } else if t.kind == TokenType::OpenBracket {
                array_rest(toks, pos + 1)
            } else if t.kind == TokenType::OpenBrace {
                map_rest(toks, pos + 1)
            } else {
                None
            }
        }
    } else if lvl == 1 {
        match level_parse(toks, pos, 0) {
            Some((e, p)) => if pos < p <= toks.len() {
                postfix_rest(toks, e, p)
            } else {
                None
            },
            None => None,
        }
    } else if lvl == 2 {
        if kind_at(toks, pos) == Some(TokenType::Minus) || kind_at(toks, pos) == Some(TokenType::Bang) {
            match level_parse(toks, pos + 1, 2) {
                Some((e, p)) => Some((ExprModel::Unary(toks[pos].kind, Box::new(e)), p)),
                None => None,
            }
        } else {
            level_parse(toks, pos, 1)
        }
    } else if lvl == 5 {
        match level_parse(toks, pos, 4) {
            Some((l, p)) => if p <= pos {
                None
            } else if kind_at(toks, p) == Some(TokenType::RangeExc) || kind_at(toks, p) == Some(TokenType::RangeInc) {
                match level_parse(toks, p + 1, 4) {
                    Some((r, q)) => Some((ExprModel::Binary(Box::new(l), toks[p].kind, Box::new(r)), q)),
                    None => None,
                }
            } else {
                Some((l, p))
            },
            None => None,
        }
    } else if lvl <= 8 {
        match level_parse(toks, pos, (lvl - 1) as nat) {
            Some((l, p)) => if pos < p <= toks.len() {
                binary_rest(toks, l, p, lvl)
            } else {
                None
            },
            None => None,
        }
    } else {
        None
    }
}

/// The rest of an array literal from just after its `[`: its elements and
/// the position after the closing `]`.
pub open spec fn array_rest(toks: Seq<Token>, p: int) -> Option<(ExprModel, int)>
    decreases toks.len() - p, 13nat,
{
    match list_parse(toks, p, TokenType::CloseBracket) {
        Some((items, q)) => if kind_at(toks, q) == Some(TokenType::CloseBracket) {
            Some((ExprModel::ArrayOf(items), q + 1))
        } else {
            None
        },
        None => None,
    }
}

/// The rest of a map literal from just after its `{`: its entries and the
/// position after the closing `}`.
pub open spec fn map_rest(toks: Seq<Token>, p: int) -> Option<(ExprModel, int)>
    decreases toks.len() - p, 13nat,
{
    match map_entries(toks, p) {
        Some((es, q)) => if kind_at(toks, q) == Some(TokenType::CloseBrace) {
            Some((ExprModel::MapOf(es), q + 1))
        } else {
            None
        },
        None => None,
    }
}

/// Continues a binary level `lvl` after its left operand `left`, which ends
/// at `p`: while an operator of the level follows, the next operand is
/// parsed and combined with what came before.
pub open spec fn binary_rest(toks: Seq<Token>, left: ExprModel, p: int, lvl: nat) -> Option<(ExprModel, int)>
    decreases toks.len() - p, lvl,
{
    if 0 <= p < toks.len() && lvl >= 1 && level_op(lvl, toks[p].kind) {
        match level_parse(toks, p + 1, (lvl - 1) as nat) {
            Some((r, q)) => if p < q <= toks.len() {
                binary_rest(toks, ExprModel::Binary(Box::new(left), toks[p].kind, Box::new(r)), q, lvl)
            } else {
                None
            },
            None => None,
        }
    } else {
        Some((left, p))
    }
}

/// Continues after the primary `e`, which ends at `p`: calls `(args)` and
/// indexing `[i]`, applied from the left.
pub open spec fn postfix_rest(toks: Seq<Token>, e: ExprModel, p: int) -> Option<(ExprModel, int)>
    decreases toks.len() - p, 1nat,
{
    if kind_at(toks, p) == Some(TokenType::OpenParen) {
        match list_parse(toks, p + 1, TokenType::CloseParen) {
            Some((args, q)) => if q > p && kind_at(toks, q) == Some(TokenType::CloseParen) {
                postfix_rest(toks, ExprModel::Call(Box::new(e), args), q + 1)
            } else {
                None
            },
            None => None,
        }
    } else if kind_at(toks, p) == Some(TokenType::OpenBracket) {
        match level_parse(toks, p + 1, 8) {
            Some((i, q)) => if q > p && kind_at(toks, q) == Some(TokenType::CloseBracket) {
                postfix_rest(toks, ExprModel::Index(Box::new(e), Box::new(i)), q + 1)
            } else {
                None
            },
            None => None,
        }
    } else {
        Some((e, p))
    }
}

/// The comma-separated expressions written from `pos` up to (not
/// including) a `close` token, a trailing comma allowed, and the position
/// of that token; no expression when `close` comes first.
pub open spec fn list_parse(toks: Seq<Token>, pos: int, close: TokenType) -> Option<(Seq<ExprModel>, int)>
    decreases toks.len() - pos, 12nat,
{
    if kind_at(toks, pos) == Some(close) {
        Some((Seq::empty(), pos))
    } else {
        list_items(toks, pos, close)
    }
}

/// One or more comma-separated expressions from `p` (see `list_parse`).
pub open spec fn list_items(toks: Seq<Token>, p: int, close: TokenType) -> Option<(Seq<ExprModel>, int)>
    decreases toks.len() - p, 11nat,
{
    match level_parse(toks, p, 8) {
        Some((e, q)) => if q <= p {
            None
        } else if kind_at(toks, q) == Some(TokenType::Comma) {
            if kind_at(toks, q + 1) == Some(close) {
                Some((seq![e], q + 1))
            } else {
                match list_items(toks, q + 1, close) {
                    Some((es, r)) => Some((seq![e] + es, r)),
                    None => None,
                }
            }
        } else {
            Some((seq![e], q))
        },
        None => None,
    }
}

/// The `key: value` entries of a map literal written from `p`, separated by
/// commas, and the position where the closing `}` must stand.
pub open spec fn map_entries(toks: Seq<Token>, p: int) -> Option<(Seq<(ExprModel, ExprModel)>, int)>
    decreases toks.len() - p, 11nat,
{
    if kind_at(toks, p) == Some(TokenType::CloseBrace) {
        Some((Seq::empty(), p))
    } else {
        match level_parse(toks, p, 8) {
            Some((k, q)) => if q > p && kind_at(toks, q) == Some(TokenType::Colon) {
                match level_parse(toks, q + 1, 8) {
                    Some((v, r)) => if r > p && kind_at(toks, r) == Some(TokenType::Comma) {
                        match map_entries(toks, r + 1) {
                            Some((es, e)) => Some((seq![(k, v)] + es, e)),
                            None => None,
                        }
                    } else {
                        Some((seq![(k, v)], r))
                    },
                    None => None,
                }
            } else {
                None
            },
            None => None,
        }
    }
}

/// Whether the node is an expression (a literal, a name, or an operation).
pub open spec fn is_expression(n: AstNode) -> bool {
    n is NumberLiteral || n is FloatLiteral || n is StringLiteral || n is BoolLiteral || n is Identifier || n is ArrayLiteral
        || n is MapLiteral || n is TupleLiteral || n is BinaryExpr || n is UnaryExpr || n is FunctionCall
        || n is ElementAccess
}

/// Whether a parse result `r` agrees with the expected outcome `m`: the
/// parsed node's model and end position, or an error where none is written.
pub open spec fn parsed_as(m: Option<(ExprModel, int)>, r: Result<(AstNode, usize), ParseError>) -> bool {
    match r {
        Ok((e, p)) => m == Some((expr_model(e), p as int)) && is_expression(e),
        Err(_) => m is None,
    }
}

/// The items before the current position, put in front of what follows.
pub open spec fn after_items(pre: Seq<ExprModel>, r: Option<(Seq<ExprModel>, int)>) -> Option<(Seq<ExprModel>, int)> {
    match r {
        Some((es, q)) => Some((pre + es, q)),
        None => None,
    }
}

/// The entries before the current position, put in front of what follows.
pub open spec fn after_entries(
    pre: Seq<(ExprModel, ExprModel)>,
    r: Option<(Seq<(ExprModel, ExprModel)>, int)>,
) -> Option<(Seq<(ExprModel, ExprModel)>, int)> {
    match r {
        Some((es, q)) => Some((pre + es, q)),
        None => None,
    }
}

// ---------------------------------------------------------------------------
// Expressions
// ---------------------------------------------------------------------------
/// Parses an expression (lowest precedence: `||`).
pub fn parse_expr_at(toks: &Vec<Token>, pos: usize) -> (r: Result<(AstNode, usize), ParseError>)
    requires
        pos <= toks.len(),
    ensures
        step_ok(toks@, pos as int, r),
        parsed_as(expr_parse(toks@, pos as int), r),
    decreases toks.len() - pos, 9nat,
{
    parse_or(toks, pos)
}

fn binary(left: AstNode, op: TokenType, right: AstNode) -> (r: AstNode)
    ensures
        r == (AstNode::BinaryExpr { left: Box::new(left), op, right: Box::new(right) }),
        expr_model(r) == ExprModel::Binary(Box::new(expr_model(left)), op, Box::new(expr_model(right))),
{
    AstNode::BinaryExpr { left: Box::new(left), op, right: Box::new(right) }
}

fn parse_or(toks: &Vec<Token>, pos: usize) -> (r: Result<(AstNode, usize), ParseError>)
    requires
        pos <= toks.len(),
    ensures
        step_ok(toks@, pos as int, r),
        parsed_as(level_parse(toks@, pos as int, 8), r),
    decreases toks.len() - pos, 8nat,
{
    let (mut left, mut p) = parse_and(toks, pos)?;
    while peek_kind(toks, p) == Some(TokenType::OrOr)
        invariant
            pos < p <= toks.len(),
            level_parse(toks@, pos as int, 8) == binary_rest(toks@, expr_model(left), p as int, 8),
            is_expression(left),
        decreases toks.len() - p,
    {
        let (right, q) = parse_and(toks, p + 1)?;
        left = binary(left, TokenType::OrOr, right);
        p = q;
    }
    Ok((left, p))
}

fn parse_and(toks: &Vec<Token>, pos: usize) -> (r: Result<(AstNode, usize), ParseError>)
    requires
        pos <= toks.len(),
    ensures
        step_ok(toks@, pos as int, r),
        parsed_as(level_parse(toks@, pos as int, 7), r),
    decreases toks.len() - pos, 7nat,
{
    let (mut left, mut p) = parse_comparison(toks, pos)?;
    while peek_kind(toks, p) == Some(TokenType::AndAnd)
        invariant
            pos < p <= toks.len(),
            level_parse(toks@, pos as int, 7) == binary_rest(toks@, expr_model(left), p as int, 7),
            is_expression(left),
        decreases toks.len() - p,
    {
        let (right, q) = parse_comparison(toks, p + 1)?;
        left = binary(left, TokenType::AndAnd, right);
        p = q;
    }
    Ok((left, p))
}

pub open spec fn is_comparison(k: TokenType) -> bool {
    k == TokenType::EqEq || k == TokenType::EqEqEq || k == TokenType::NotEq || k == TokenType::NotEqEq || k
        == TokenType::Gt || k == TokenType::Lt || k == TokenType::GtEq || k == TokenType::LtEq
}

fn comparison_op(k: Option<TokenType>) -> (r: Option<TokenType>)
    ensures
        r == (match k {
            Some(t) => if is_comparison(t) {
                Some(t)
            } else {
                None
            },
            None => None,
        }),
{
    match k {
        Some(t) => {
            if t == TokenType::EqEq || t == TokenType::EqEqEq || t == TokenType::NotEq || t == TokenType::NotEqEq
                || t == TokenType::Gt || t == TokenType::Lt || t == TokenType::GtEq || t == TokenType::LtEq {
                Some(t)
            } else {
                None
            }
        },
        None => None,
    }
}

fn parse_comparison(toks: &Vec<Token>, pos: usize) -> (r: Result<(AstNode, usize), ParseError>)
    requires
        pos <= toks.len(),
    ensures
        step_ok(toks@, pos as int, r),
        parsed_as(level_parse(toks@, pos as int, 6), r),
    decreases toks.len() - pos, 6nat,
{
    let (mut left, mut p) = parse_range(toks, pos)?;
    loop
        invariant
            pos < p <= toks.len(),
            level_parse(toks@, pos as int, 6) == binary_rest(toks@, expr_model(left), p as int, 6),
            is_expression(left),
        ensures
            pos < p <= toks.len(),
            level_parse(toks@, pos as int, 6) == Some((expr_model(left), p as int)),
        decreases toks.len() - p,
    {
        match comparison_op(peek_kind(toks, p)) {
            Some(op) => {
                let (right, q) = parse_range(toks, p + 1)?;
                left = binary(left, op, right);
                p = q;
            },
            None => break ,
        }
    }
    Ok((left, p))
}

fn parse_range(toks: &Vec<Token>, pos: usize) -> (r: Result<(AstNode, usize), ParseError>)
    requires
        pos <= toks.len(),
    ensures
        step_ok(toks@, pos as int, r),
        parsed_as(level_parse(toks@, pos as int, 5), r),
    decreases toks.len() - pos, 5nat,
{
    let (left, p) = parse_additive(toks, pos)?;
    let k = peek_kind(toks, p);
    if k == Some(TokenType::RangeExc) || k == Some(TokenType::RangeInc) {
        let op = if k == Some(TokenType::RangeExc) {
            TokenType::RangeExc
        } else {
            TokenType::RangeInc
        };
        let (right, q) = parse_additive(toks, p + 1)?;
        Ok((binary(left, op, right), q))
    } else {
        Ok((left, p))
    }
}

fn parse_additive(toks: &Vec<Token>, pos: usize) -> (r: Result<(AstNode, usize), ParseError>)
    requires
        pos <= toks.len(),
    ensures
        step_ok(toks@, pos as int, r),
        parsed_as(level_parse(toks@, pos as int, 4), r),
    decreases toks.len() - pos, 4nat,
{
    let (mut left, mut p) = parse_multiplicative(toks, pos)?;
    loop
        invariant
            pos < p <= toks.len(),
            level_parse(toks@, pos as int, 4) == binary_rest(toks@, expr_model(left), p as int, 4),
            is_expression(left),
        ensures
            pos < p <= toks.len(),
            level_parse(toks@, pos as int, 4) == Some((expr_model(left), p as int)),
        decreases toks.len() - p,
    {
        let k = peek_kind(toks, p);
        if k == Some(TokenType::Plus) || k == Some(TokenType::Minus) {
            let op = if k == Some(TokenType::Plus) {
                TokenType::Plus
            } else {
                TokenType::Minus
            };
            let (right, q) = parse_multiplicative(toks, p + 1)?;
            left = binary(left, op, right);
            p = q;
        } else {
            break ;
        }
    }
    Ok((left, p))
}

fn parse_multiplicative(toks: &Vec<Token>, pos: usize) -> (r: Result<(AstNode, usize), ParseError>)
    requires
        pos <= toks.len(),
    ensures
        step_ok(toks@, pos as int, r),
        parsed_as(level_parse(toks@, pos as int, 3), r),
    decreases toks.len() - pos, 3nat,
{
    let (mut left, mut p) = parse_unary(toks, pos)?;
    loop
        invariant
            pos < p <= toks.len(),
            level_parse(toks@, pos as int, 3) == binary_rest(toks@, expr_model(left), p as int, 3),
            is_expression(left),
        ensures
            pos < p <= toks.len(),
            level_parse(toks@, pos as int, 3) == Some((expr_model(left), p as int)),
        decreases toks.len() - p,
    {
        let k = peek_kind(toks, p);
        if k == Some(TokenType::Star) || k == Some(TokenType::Slash) || k == Some(TokenType::Percent) {
            let op = if k == Some(TokenType::Star) {
                TokenType::Star
            } else if k == Some(TokenType::Slash) {
                TokenType::Slash
            } else {
                TokenType::Percent
            };
            let (right, q) = parse_unary(toks, p + 1)?;
            left = binary(left, op, right);
            p = q;
        } else {
            break ;
        }
    }
    Ok((left, p))
}

fn parse_unary(toks: &Vec<Token>, pos: usize) -> (r: Result<(AstNode, usize), ParseError>)
    requires
        pos <= toks.len(),
    ensures
        step_ok(toks@, pos as int, r),
        parsed_as(level_parse(toks@, pos as int, 2), r),
    decreases toks.len() - pos, 2nat,
{
    let k = peek_kind(toks, pos);
    if k == Some(TokenType::Minus) || k == Some(TokenType::Bang) {
        let op = if k == Some(TokenType::Minus) {
            TokenType::Minus
        } else {
            TokenType::Bang
        };
        let (e, p) = parse_unary(toks, pos + 1)?;
        Ok((AstNode::UnaryExpr { op, expr: Box::new(e) }, p))
    } else {
        parse_postfix(toks, pos)
    }
}

/// Parses a comma-separated list of expressions up to (not including) `close`.
fn parse_expr_list(toks: &Vec<Token>, pos: usize, close: TokenType) -> (r: Result<(Vec<AstNode>, usize), ParseError>)
    requires
        pos <= toks.len(),
    ensures
        match r {
            Ok((items, p)) => pos <= p <= toks.len() && list_parse(toks@, pos as int, close) == Some(
                (exprs_model(items@), p as int),
            ),
            Err(e) => error_at_or_after(toks@, pos as int, e) && list_parse(toks@, pos as int, close) is None,
        },
    decreases toks.len() - pos, 10nat,
{
    let mut items: Vec<AstNode> = Vec::new();
    let mut p = pos;
    if peek_kind(toks, p) == Some(close) {
        return Ok((items, p));
    }
    loop
        invariant_except_break
            list_parse(toks@, pos as int, close) == after_items(exprs_model(items@), list_items(toks@, p as int, close)),
        invariant
            pos <= p <= toks.len(),
        ensures
            list_parse(toks@, pos as int, close) == Some((exprs_model(items@), p as int)),
        decreases toks.len() - p,
    {
        let ghost before = items@;
        let (e, q) = parse_expr_at(toks, p)?;
        proof {
            lemma_expr_models_push(before, e);
        }
        items.push(e);
        p = q;
        if peek_kind(toks, p) == Some(TokenType::Comma) {
            p = p + 1;
            proof {
                match list_items(toks@, p as int, close) {
                    Some((rest, _)) => {
                        assert(exprs_model(before) + (seq![expr_model(e)] + rest) =~= exprs_model(items@) + rest);
                    },
                    None => {},
                }
            }
            if peek_kind(toks, p) == Some(close) {
                break ;
            }
        } else {
            break ;
        }
    }
    Ok((items, p))
}

fn parse_postfix(toks: &Vec<Token>, pos: usize) -> (r: Result<(AstNode, usize), ParseError>)
    requires
        pos <= toks.len(),
    ensures
        step_ok(toks@, pos as int, r),
        parsed_as(level_parse(toks@, pos as int, 1), r),
    decreases toks.len() - pos, 1nat,
{
    let (mut e, mut p) = parse_primary(toks, pos)?;
    loop
        invariant
            pos < p <= toks.len(),
            level_parse(toks@, pos as int, 1) == postfix_rest(toks@, expr_model(e), p as int),
            is_expression(e),
        ensures
            pos < p <= toks.len(),
            level_parse(toks@, pos as int, 1) == Some((expr_model(e), p as int)),
        decreases toks.len() - p,
    {
        let k = peek_kind(toks, p);
        if k == Some(TokenType::OpenParen) {
            let (args, q) = parse_expr_list(toks, p + 1, TokenType::CloseParen)?;
            let q = expect_at(toks, q, TokenType::CloseParen)?;
            e = AstNode::FunctionCall { func: Box::new(e), args };
            p = q;
        } else if k == Some(TokenType::OpenBracket) {
            let (index, q) = parse_expr_at(toks, p + 1)?;
            let q = expect_at(toks, q, TokenType::CloseBracket)?;
            e = AstNode::ElementAccess { array: Box::new(e), index: Box::new(index) };
            p = q;
        } else {
            break ;
        }
    }
    Ok((e, p))
}

/// The rest of an array literal after its `[`: elements separated by
/// commas (a trailing comma allowed), then `]`.
fn parse_array_rest(toks: &Vec<Token>, pos: usize) -> (r: Result<(AstNode, usize), ParseError>)
    requires
        pos <= toks.len(),
    ensures
        match r {
            Ok((n, p)) => n is ArrayLiteral && pos < p <= toks.len(),
            Err(e) => error_at_or_after(toks@, pos as int, e),
        },
        parsed_as(array_rest(toks@, pos as int), r),
    decreases toks.len() - pos, 11nat,
{
    let (items, p) = parse_expr_list(toks, pos, TokenType::CloseBracket)?;
    let p = expect_at(toks, p, TokenType::CloseBracket)?;
    Ok((AstNode::ArrayLiteral(items), p))
}

/// The rest of a map literal after its `{`: `key: value` entries separated
/// by commas, then `}`.
fn parse_map_rest(toks: &Vec<Token>, pos: usize) -> (r: Result<(AstNode, usize), ParseError>)
    requires
        pos <= toks.len(),
    ensures
        match r {
            Ok((n, p)) => n is MapLiteral && pos < p <= toks.len(),
            Err(e) => error_at_or_after(toks@, pos as int, e),
        },
        parsed_as(map_rest(toks@, pos as int), r),
    decreases toks.len() - pos, 11nat,
{
    let mut entries: Vec<(AstNode, AstNode)> = Vec::new();
    let mut p = pos;
    while peek_kind(toks, p) != Some(TokenType::CloseBrace)
        invariant_except_break
            map_entries(toks@, pos as int) == after_entries(
                pair_models(entries@, entries@.len()),
                map_entries(toks@, p as int),
            ),
        invariant
            pos <= p <= toks.len(),
        ensures
            map_entries(toks@, pos as int) == Some((pair_models(entries@, entries@.len()), p as int)),
        decreases toks.len() - p,
    {
        let ghost before = entries@;
        let (k, q) = parse_expr_at(toks, p)?;
        let q = expect_at(toks, q, TokenType::Colon)?;
        let (v, q) = parse_expr_at(toks, q)?;
        proof {
            lemma_pair_models_push(before, (k, v));
        }
        entries.push((k, v));
        p = q;
        if peek_kind(toks, p) == Some(TokenType::Comma) {
            p = p + 1;
            proof {
                match map_entries(toks@, p as int) {
                    Some((rest, _)) => {
                        assert(pair_models(before, before.len()) + (seq![(expr_model(k), expr_model(v))] + rest)
                            =~= pair_models(entries@, entries@.len()) + rest);
                    },
                    None => {},
                }
            }
        } else {
            break ;
        }
    }
    let p = expect_at(toks, p, TokenType::CloseBrace)?;
    Ok((AstNode::MapLiteral(entries), p))
}

fn parse_primary(toks: &Vec<Token>, pos: usize) -> (r: Result<(AstNode, usize), ParseError>)
    requires
        pos <= toks.len(),
    ensures
        step_ok(toks@, pos as int, r),
        parsed_as(level_parse(toks@, pos as int, 0), r),
    decreases toks.len() - pos, 0nat,
{
    if is_underscore(toks, pos) {
        return Ok((AstNode::Identifier(String::from_str("_")), pos + 1));
    }
    match peek_kind(toks, pos) {
        Some(TokenType::Number) => {
            match parse_i64(&toks[pos].value) {
                Some(v) => Ok((AstNode::NumberLiteral(v), pos + 1)),
                None => {
                    let m = concat("Integer literal out of range: ", toks[pos].value.as_str());
                    Err(error_at(toks, pos, m))
                },
            }
        },
        Some(TokenType::Float) => Ok((AstNode::FloatLiteral(toks[pos].value.clone()), pos + 1)),
        Some(TokenType::String) => Ok((AstNode::StringLiteral(toks[pos].value.clone()), pos + 1)),
        Some(TokenType::Boolean) => {
            let t = String::from_str("true");
            let b = toks[pos].value == t;
            Ok((AstNode::BoolLiteral(b), pos + 1))
        },
        Some(TokenType::Identifier) => Ok((AstNode::Identifier(toks[pos].value.clone()), pos + 1)),
        Some(TokenType::OpenParen) => {
            let (first, p) = parse_expr_at(toks, pos + 1)?;
            if peek_kind(toks, p) == Some(TokenType::Comma) {
                let (mut rest, q) = parse_expr_list(toks, p + 1, TokenType::CloseParen)?;
                let q = expect_at(toks, q, TokenType::CloseParen)?;
                let ghost rest_before = rest@;
                let mut items: Vec<AstNode> = Vec::new();
                items.push(first);
                items.append(&mut rest);
                proof {
                    lemma_exprs_model_index(items@);
                    lemma_exprs_model_index(rest_before);
                    assert(exprs_model(items@) =~= seq![expr_model(first)] + exprs_model(rest_before));
                }
                Ok((AstNode::TupleLiteral(items), q))
            } else {
                let q = expect_at(toks, p, TokenType::CloseParen)?;
                Ok((first, q))
            }
        },
        Some(TokenType::OpenBracket) => parse_array_rest(toks, pos + 1),
        Some(TokenType::OpenBrace) => parse_map_rest(toks, pos + 1),
        _ => Err(expected_error(toks, pos, "expression")),
    }
}

} // verus!

verus! {

// ---------------------------------------------------------------------------
// Statements
// ---------------------------------------------------------------------------
/// The expression `e` read as an assignment target: a name (`_` is the
/// wildcard) or a tuple of targets.
pub open spec fn target_pattern(e: ExprModel) -> Option<PatternModel>
    decreases e, 0nat,
{
    match e {
        ExprModel::Ident(n) => if n == "_"@ {
            Some(PatternModel::Wildcard)
        } else {
            Some(PatternModel::Identifier(n))
        },
        ExprModel::TupleOf(items) => match target_patterns(items, items.len()) {
            Some(ps) => Some(PatternModel::Tuple(ps)),
            None => None,
        },
        _ => None,
    }
}

/// The first `n` expressions read as assignment targets, if all of them are.
pub open spec fn target_patterns(items: Seq<ExprModel>, n: nat) -> Option<Seq<PatternModel>>
    decreases items, n,
{
    if n == 0 || n > items.len() {
        Some(Seq::empty())
    } else {
        match target_patterns(items, (n - 1) as nat) {
            Some(ps) => match target_pattern(items[n - 1]) {
                Some(p) => Some(ps.push(p)),
                None => None,
            },
            None => None,
        }
    }
}

/// The compound assignment operators `+=`, `-=`, `*=`, `/=` and `%=`.
pub open spec fn is_compound(k: TokenType) -> bool {
    k == TokenType::PlusEq || k == TokenType::MinusEq || k == TokenType::StarEq || k == TokenType::SlashEq || k
        == TokenType::PercentEq
}

/// The arithmetic operator of a compound assignment operator (`+=` gives
/// `+`); any other operator stands for itself.
pub open spec fn arith_op(k: TokenType) -> TokenType {
    if k == TokenType::PlusEq {
        TokenType::Plus
    } else if k == TokenType::MinusEq {
        TokenType::Minus
    } else if k == TokenType::StarEq {
        TokenType::Star
    } else if k == TokenType::SlashEq {
        TokenType::Slash
    } else if k == TokenType::PercentEq {
        TokenType::Percent
    } else {
        k
    }
}

/// The statement written at `pos` and the position just after it, if one
/// is written there: a function (`pub` or not), an import, `let`, a
/// struct or enum declaration, `return`, `print(...)`, `break`,
/// `continue`, `if`, `for`, a block, an assignment (`x op= e` stands for
/// `x = x op e`) or an expression, each simple statement ending with `;`.
pub open spec fn stmt_parse(toks: Seq<Token>, pos: int) -> Option<(StmtModel, int)>
    decreases toks.len() - pos, 5nat,
{
    if !(0 <= pos < toks.len()) {
        None
    } else {
        let k = toks[pos].kind;
        if k == TokenType::Function {
            fn_parse(toks, pos, "Private"@)
        } else if k == TokenType::Identifier && toks[pos].value@ == "pub"@ && kind_at(toks, pos + 1) == Some(
            TokenType::Function,
        ) {
            fn_parse(toks, pos + 1, "Public"@)
        } else if k == TokenType::Import {
            import_parse(toks, pos)
        } else if k == TokenType::Let {
            let_parse(toks, pos)
        } else if k == TokenType::Struct {
            struct_parse(toks, pos)
        } else if k == TokenType::Enum {
            enum_parse(toks, pos)
        } else if k == TokenType::Return {
            if kind_at(toks, pos + 1) == Some(TokenType::Semi) {
                Some((StmtModel::Return(Seq::empty()), pos + 2))
            } else {
                match list_parse(toks, pos + 1, TokenType::Semi) {
                    Some((vs, q)) => if kind_at(toks, q) == Some(TokenType::Semi) {
                        Some((StmtModel::Return(vs), q + 1))
                    } else {
                        None
                    },
                    None => None,
                }
            }
        } else if k == TokenType::Print {
            if kind_at(toks, pos + 1) == Some(TokenType::OpenParen) {
                match list_parse(toks, pos + 2, TokenType::CloseParen) {
                    Some((es, q)) => if kind_at(toks, q) == Some(TokenType::CloseParen) && kind_at(toks, q + 1) == Some(
                        TokenType::Semi,
                    ) {
                        Some((StmtModel::Print(es), q + 2))
                    } else {
                        None
                    },
                    None => None,
                }
            } else {
                None
            }
        } else if k == TokenType::Break || k == TokenType::Continue {
            if kind_at(toks, pos + 1) == Some(TokenType::Semi) {
                Some((
                    if k == TokenType::Break {
                        StmtModel::Break
                    } else {
                        StmtModel::Continue
                    },
                    pos + 2,
                ))
            } else {
                None
            }
        } else if k == TokenType::If {
            if_parse(toks, pos)
        } else if k == TokenType::For {
            for_parse(toks, pos)
        } else if k == TokenType::OpenBrace {
            match block_parse(toks, pos) {
                Some((body, q)) => Some((StmtModel::Block(body), q)),
                None => None,
            }
        } else {
            simple_parse(toks, pos)
        }
    }
}

/// An assignment or an expression statement written at `pos`.
pub open spec fn simple_parse(toks: Seq<Token>, pos: int) -> Option<(StmtModel, int)> {
    match expr_parse(toks, pos) {
        Some((e, p)) => if kind_at(toks, p) == Some(TokenType::Eq) {
            match target_pattern(e) {
                Some(pat) => match expr_parse(toks, p + 1) {
                    Some((v, q)) => if kind_at(toks, q) == Some(TokenType::Semi) {
                        Some((StmtModel::Assign(pat, v), q + 1))
                    } else {
                        None
                    },
                    None => None,
                },
                None => None,
            }
        } else if 0 <= p < toks.len() && is_compound(toks[p].kind) {
            match target_pattern(e) {
                Some(PatternModel::Identifier(name)) => match expr_parse(toks, p + 1) {
                    Some((v, q)) => if kind_at(toks, q) == Some(TokenType::Semi) {
                        Some((
                            StmtModel::Assign(
                                PatternModel::Identifier(name),
                                ExprModel::Binary(Box::new(ExprModel::Ident(name)), arith_op(toks[p].kind), Box::new(v)),
                            ),
                            q + 1,
                        ))
                    } else {
                        None
                    },
                    None => None,
                },
                _ => None,
            }
        } else if kind_at(toks, p) == Some(TokenType::Semi) {
            Some((StmtModel::Expr(e), p + 1))
        } else {
            None
        },
        None => None,
    }
}

/// The statements of a block written at `pos` (`{ statements }`) and the
/// position after its `}`.
pub open spec fn block_parse(toks: Seq<Token>, pos: int) -> Option<(Seq<StmtModel>, int)>
    decreases toks.len() - pos, 1nat,
{
    if kind_at(toks, pos) == Some(TokenType::OpenBrace) {
        match stmts_until(toks, pos + 1) {
            Some((body, q)) => if kind_at(toks, q) == Some(TokenType::CloseBrace) {
                Some((body, q + 1))
            } else {
                None
            },
            None => None,
        }
    } else {
        None
    }
}

/// The statements written from `p` up to the first `}` at statement level
/// or the end of the tokens, and the position where they stop.
pub open spec fn stmts_until(toks: Seq<Token>, p: int) -> Option<(Seq<StmtModel>, int)>
    decreases toks.len() - p, 6nat,
{
    if !(0 <= p < toks.len()) || toks[p].kind == TokenType::CloseBrace {
        Some((Seq::empty(), p))
    } else {
        match stmt_parse(toks, p) {
            Some((s, q)) => if p < q <= toks.len() {
                match stmts_until(toks, q) {
                    Some((rest, r)) => Some((seq![s] + rest, r)),
                    None => None,
                }
            } else {
                None
            },
            None => None,
        }
    }
}

/// `if cond { ... }` written at `pos`, with an optional `else { ... }` or
/// `else if ...`.
pub open spec fn if_parse(toks: Seq<Token>, pos: int) -> Option<(StmtModel, int)>
    decreases toks.len() - pos, 2nat,
{
    if kind_at(toks, pos) == Some(TokenType::If) {
        match expr_parse(toks, pos + 1) {
            Some((c, p)) => if !(pos < p <= toks.len()) {
                None
            } else {
                match block_parse(toks, p) {
                    Some((then_body, q)) => if !(p < q <= toks.len()) {
                        None
                    } else if kind_at(toks, q) == Some(TokenType::Else) {
                        if kind_at(toks, q + 1) == Some(TokenType::If) {
                            match if_parse(toks, q + 1) {
                                Some((nested, r)) => Some((StmtModel::If(c, then_body, Some(Box::new(nested))), r)),
                                None => None,
                            }
                        } else {
                            match block_parse(toks, q + 1) {
                                Some((else_body, r)) => Some(
                                    (
                                        StmtModel::If(c, then_body, Some(Box::new(StmtModel::Block(else_body)))),
                                        r,
                                    ),
                                ),
                                None => None,
                            }
                        }
                    } else {
                        Some((StmtModel::If(c, then_body, None), q))
                    },
                    None => None,
                }
            },
            None => None,
        }
    } else {
        None
    }
}

/// `for pattern in iterable { ... }` or the endless `for { ... }` written
/// at `pos`.
pub open spec fn for_parse(toks: Seq<Token>, pos: int) -> Option<(StmtModel, int)>
    decreases toks.len() - pos, 2nat,
{
    if kind_at(toks, pos) == Some(TokenType::For) {
        if kind_at(toks, pos + 1) == Some(TokenType::OpenBrace) {
            match block_parse(toks, pos + 1) {
                Some((body, q)) => Some((StmtModel::For(PatternModel::Wildcard, None, body), q)),
                None => None,
            }
        } else {
            match pattern_parse(toks, pos + 1) {
                Some((pat, q)) => if kind_at(toks, q) == Some(TokenType::In) {
                    match expr_parse(toks, q + 1) {
                        Some((it, r)) => if !(pos < r <= toks.len()) {
                            None
                        } else {
                            match block_parse(toks, r) {
                                Some((body, s)) => Some((StmtModel::For(pat, Some(it), body), s)),
                                None => None,
                            }
                        },
                        None => None,
                    }
                } else {
                    None
                },
                None => None,
            }
        }
    } else {
        None
    }
}

/// `fn name(params) [-> type] { body }` written at `pos`, with the given
/// visibility.
pub open spec fn fn_parse(toks: Seq<Token>, pos: int, vis: Seq<char>) -> Option<(StmtModel, int)>
    decreases toks.len() - pos, 2nat,
{
    if kind_at(toks, pos) == Some(TokenType::Function) && kind_at(toks, pos + 1) == Some(TokenType::Identifier)
        && kind_at(toks, pos + 2) == Some(TokenType::OpenParen) {
        let name = toks[pos + 1].value@;
        match params_parse(toks, pos + 3) {
            Some((ps, p)) => if pos < p && kind_at(toks, p) == Some(TokenType::CloseParen) {
                if kind_at(toks, p + 1) == Some(TokenType::Arrow) {
                    match type_parse(toks, p + 2) {
                        Some((t, q)) => if !(pos < q <= toks.len()) {
                            None
                        } else {
                            match block_parse(toks, q) {
                                Some((body, r)) => Some((StmtModel::Function(name, vis, ps, Some(t), body), r)),
                                None => None,
                            }
                        },
                        None => None,
                    }
                } else {
                    match block_parse(toks, p + 1) {
                        Some((body, r)) => Some((StmtModel::Function(name, vis, ps, None, body), r)),
                        None => None,
                    }
                }
            } else {
                None
            },
            None => None,
        }
    } else {
        None
    }
}

/// One parameter written at `p`: a name with an optional `: type`.
pub open spec fn param_at(toks: Seq<Token>, p: int) -> Option<((Seq<char>, Option<TypeModel>), int)> {
    if kind_at(toks, p) == Some(TokenType::Identifier) {
        let name = toks[p].value@;
        if kind_at(toks, p + 1) == Some(TokenType::Colon) {
            match type_parse(toks, p + 2) {
                Some((t, q)) => Some(((name, Some(t)), q)),
                None => None,
            }
        } else {
            Some(((name, None), p + 1))
        }
    } else {
        None
    }
}

/// The parameters of a function written from `p`: none when `)` follows,
/// otherwise parameters separated by commas.
pub open spec fn params_parse(toks: Seq<Token>, p: int) -> Option<(Seq<(Seq<char>, Option<TypeModel>)>, int)> {
    if kind_at(toks, p) == Some(TokenType::CloseParen) {
        Some((Seq::empty(), p))
    } else {
        param_items(toks, p)
    }
}

/// One or more parameters separated by commas, written from `p`.
pub open spec fn param_items(toks: Seq<Token>, p: int) -> Option<(Seq<(Seq<char>, Option<TypeModel>)>, int)>
    decreases toks.len() - p,
{
    match param_at(toks, p) {
        Some((item, q)) => if !(p < q <= toks.len()) {
            None
        } else if kind_at(toks, q) == Some(TokenType::Comma) {
            match param_items(toks, q + 1) {
                Some((rest, r)) => Some((seq![item] + rest, r)),
                None => None,
            }
        } else {
            Some((seq![item], q))
        },
        None => None,
    }
}

/// `import a::b::Symbol;` written at `pos`: all names but the last form the
/// module path and the last one is the imported symbol; a single name
/// imports a whole module.
pub open spec fn import_parse(toks: Seq<Token>, pos: int) -> Option<(StmtModel, int)> {
    if kind_at(toks, pos) == Some(TokenType::Import) && kind_at(toks, pos + 1) == Some(TokenType::Identifier) {
        match import_segments(toks, pos + 2) {
            Some((segs, q)) => if kind_at(toks, q) == Some(TokenType::Semi) {
                let all = seq![toks[pos + 1].value@] + segs;
                Some((
                    if all.len() >= 2 {
                        StmtModel::Import(all.drop_last(), Some(all.last()))
                    } else {
                        StmtModel::Import(all, None)
                    },
                    q + 1,
                ))
            } else {
                None
            },
            None => None,
        }
    } else {
        None
    }
}

/// The `::name` segments written from `p` and the position after them.
pub open spec fn import_segments(toks: Seq<Token>, p: int) -> Option<(Seq<Seq<char>>, int)>
    decreases toks.len() - p,
{
    if kind_at(toks, p) == Some(TokenType::Colon) && kind_at(toks, p + 1) == Some(TokenType::Colon) {
        if kind_at(toks, p + 2) == Some(TokenType::Identifier) {
            match import_segments(toks, p + 3) {
                Some((rest, q)) => Some((seq![toks[p + 2].value@] + rest, q)),
                None => None,
            }
        } else {
            None
        }
    } else {
        Some((Seq::empty(), p))
    }
}

/// `let [mut] pattern [: type] = value;` written at `pos`.
pub open spec fn let_parse(toks: Seq<Token>, pos: int) -> Option<(StmtModel, int)> {
    if kind_at(toks, pos) == Some(TokenType::Let) {
        let m = kind_at(toks, pos + 1) == Some(TokenType::Mut);
        let p = if m {
            pos + 2
        } else {
            pos + 1
        };
        match pattern_parse(toks, p) {
            Some((pat, q)) => if kind_at(toks, q) == Some(TokenType::Colon) {
                match type_parse(toks, q + 1) {
                    Some((t, r)) => let_rest(toks, m, Some(t), pat, r),
                    None => None,
                }
            } else {
                let_rest(toks, m, None, pat, q)
            },
            None => None,
        }
    } else {
        None
    }
}

/// The `= value;` that ends a `let`, written at `r`.
pub open spec fn let_rest(toks: Seq<Token>, m: bool, t: Option<TypeModel>, pat: PatternModel, r: int) -> Option<
    (StmtModel, int),
> {
    if kind_at(toks, r) == Some(TokenType::Eq) {
        match expr_parse(toks, r + 1) {
            Some((v, s)) => if kind_at(toks, s) == Some(TokenType::Semi) {
                Some((StmtModel::Let(m, t, pat, v, None), s + 1))
            } else {
                None
            },
            None => None,
        }
    } else {
        None
    }
}

/// `struct Name { field: type, ... }` written at `pos`.
pub open spec fn struct_parse(toks: Seq<Token>, pos: int) -> Option<(StmtModel, int)> {
    if kind_at(toks, pos) == Some(TokenType::Struct) && kind_at(toks, pos + 1) == Some(TokenType::Identifier)
        && kind_at(toks, pos + 2) == Some(TokenType::OpenBrace) {
        match struct_fields(toks, pos + 3) {
            Some((fs, q)) => Some((StmtModel::Struct(toks[pos + 1].value@, fs), q + 1)),
            None => None,
        }
    } else {
        None
    }
}

/// The fields `name: type` of a struct written from `p`, each followed by
/// an optional comma, up to the `}` whose position comes with them.
pub open spec fn struct_fields(toks: Seq<Token>, p: int) -> Option<(Seq<(Seq<char>, TypeModel)>, int)>
    decreases toks.len() - p,
{
    if kind_at(toks, p) == Some(TokenType::CloseBrace) {
        Some((Seq::empty(), p))
    } else if kind_at(toks, p) == Some(TokenType::Identifier) && kind_at(toks, p + 1) == Some(TokenType::Colon) {
        match type_parse(toks, p + 2) {
            Some((t, q)) => {
                let next = if kind_at(toks, q) == Some(TokenType::Comma) {
                    q + 1
                } else {
                    q
                };
                if p < next <= toks.len() {
                    match struct_fields(toks, next) {
                        Some((rest, r)) => Some((seq![(toks[p].value@, t)] + rest, r)),
                        None => None,
                    }
                } else {
                    None
                }
            },
            None => None,
        }
    } else {
        None
    }
}

/// `enum Name { Variant, Variant(type), ... }` written at `pos`.
pub open spec fn enum_parse(toks: Seq<Token>, pos: int) -> Option<(StmtModel, int)> {
    if kind_at(toks, pos) == Some(TokenType::Enum) && kind_at(toks, pos + 1) == Some(TokenType::Identifier)
        && kind_at(toks, pos + 2) == Some(TokenType::OpenBrace) {
        match enum_variants(toks, pos + 3) {
            Some((vs, q)) => Some((StmtModel::Enum(toks[pos + 1].value@, vs), q + 1)),
            None => None,
        }
    } else {
        None
    }
}

/// One variant written at `p`: a name with an optional `(type)`.
pub open spec fn variant_at(toks: Seq<Token>, p: int) -> Option<((Seq<char>, Option<TypeModel>), int)> {
    if kind_at(toks, p) == Some(TokenType::Identifier) {
        let name = toks[p].value@;
        if kind_at(toks, p + 1) == Some(TokenType::OpenParen) {
            match type_parse(toks, p + 2) {
                Some((t, q)) => if kind_at(toks, q) == Some(TokenType::CloseParen) {
                    Some(((name, Some(t)), q + 1))
                } else {
                    None
                },
                None => None,
            }
        } else {
            Some(((name, None), p + 1))
        }
    } else {
        None
    }
}

/// The variants of an enum written from `p`, each followed by an optional
/// comma, up to the `}` whose position comes with them.
pub open spec fn enum_variants(toks: Seq<Token>, p: int) -> Option<(Seq<(Seq<char>, Option<TypeModel>)>, int)>
    decreases toks.len() - p,
{
    if kind_at(toks, p) == Some(TokenType::CloseBrace) {
        Some((Seq::empty(), p))
    } else {
        match variant_at(toks, p) {
            Some((v, q)) => {
                let next = if kind_at(toks, q) == Some(TokenType::Comma) {
                    q + 1
                } else {
                    q
                };
                if p < next <= toks.len() {
                    match enum_variants(toks, next) {
                        Some((rest, r)) => Some((seq![v] + rest, r)),
                        None => None,
                    }
                } else {
                    None
                }
            },
            None => None,
        }
    }
}

/// The statements of a program written from `pos` to the end of the
/// tokens, if each of them parses.
pub open spec fn program_parse(toks: Seq<Token>, pos: int) -> Option<Seq<StmtModel>>
    decreases toks.len() - pos,
{
    if !(0 <= pos < toks.len()) {
        Some(Seq::empty())
    } else {
        match stmt_parse(toks, pos) {
            Some((s, q)) => if pos < q <= toks.len() {
                match program_parse(toks, q) {
                    Some(rest) => Some(seq![s] + rest),
                    None => None,
                }
            } else {
                None
            },
            None => None,
        }
    }
}

/// Whether a statement parse result `r` agrees with the expected outcome
/// `m`: the node's model and end position, or an error where none is
/// written.
pub open spec fn stmt_parsed_as(m: Option<(StmtModel, int)>, r: Result<(AstNode, usize), ParseError>) -> bool {
    match r {
        Ok((n, p)) => m == Some((stmt_model(n), p as int)),
        Err(_) => m is None,
    }
}

/// Once a target in a list is not one, no longer prefix of the list reads
/// as targets.
proof fn lemma_target_patterns_none(items: Seq<ExprModel>, n: nat, m: nat)
    requires
        n <= m <= items.len(),
        target_patterns(items, n) is None,
    ensures
        target_patterns(items, m) is None,
    decreases m - n,
{
    if m > n {
        lemma_target_patterns_none(items, n, (m - 1) as nat);
    }
}

/// The pattern an assignment target expression stands for: a name (`_` is
/// the wildcard) or a tuple of such targets; `None` for anything else.
pub fn expr_to_pattern(e: &AstNode) -> (r: Option<Pattern>)
    ensures
        e matches AstNode::Identifier(n) ==> r is Some,
        !(e is Identifier || e is TupleLiteral) ==> r is None,
        is_expression(*e) ==> match r {
            Some(p) => target_pattern(expr_model(*e)) == Some(p.model()),
            None => target_pattern(expr_model(*e)) is None,
        },
    decreases e,
{
    match e {
        AstNode::Identifier(n) => {
            let w = String::from_str("_");
            if *n == w {
                Some(Pattern::Wildcard)
            } else {
                Some(Pattern::Identifier(n.clone()))
            }
        },
        AstNode::TupleLiteral(items) => {
            let mut out: Vec<Pattern> = Vec::new();
            let mut i: usize = 0;
            let ghost ms = exprs_model(items@);
            proof {
                lemma_exprs_model_index(items@);
            }
            while i < items.len()
                invariant
                    *e == AstNode::TupleLiteral(*items),
                    i <= items.len(),
                    ms == exprs_model(items@),
                    ms.len() == items.len(),
                    forall|j: int| 0 <= j < items.len() ==> #[trigger] ms[j] == expr_model(items@[j]),
                    target_patterns(ms, i as nat) == Some(pattern_models(out@)),
                decreases items.len() - i,
            {
                assert(decreases_to!(*items => (*items)[i as int]));
                assert(e->TupleLiteral_0 == *items);
                assert(decreases_to!(*e => e->TupleLiteral_0));
                let ghost before = out@;
                match expr_to_pattern(&items[i]) {
                    Some(p) => {
                        out.push(p);
                        proof {
                            assert(out@.drop_last() =~= before);
                            assert(ms[i as int] == expr_model(items@[i as int]));
                        }
                    },
                    None => {
                        proof {
                            assert(ms[i as int] == expr_model(items@[i as int]));
                            lemma_target_patterns_none(ms, (i + 1) as nat, ms.len());
                        }
                        return None;
                    },
                }
                i += 1;
            }
            Some(Pattern::Tuple(out))
        },
        _ => None,
    }
}


fn is_compound_op(k: Option<TokenType>) -> (r: Option<TokenType>)
    ensures
        r matches Some(t) ==> k == Some(t) && (t == TokenType::PlusEq || t == TokenType::MinusEq || t
            == TokenType::StarEq || t == TokenType::SlashEq || t == TokenType::PercentEq),
        r is None ==> !(k == Some(TokenType::PlusEq) || k == Some(TokenType::MinusEq) || k == Some(
            TokenType::StarEq,
        ) || k == Some(TokenType::SlashEq) || k == Some(TokenType::PercentEq)),
{
    match k {
        Some(t) => {
            if t == TokenType::PlusEq || t == TokenType::MinusEq || t == TokenType::StarEq || t
                == TokenType::SlashEq || t == TokenType::PercentEq {
                Some(t)
            } else {
                None
            }
        },
        None => None,
    }
}

/// The arithmetic operator of a compound assignment operator (`+=` gives `+`).
pub fn arithmetic_of(op: TokenType) -> (r: TokenType)
    ensures
        op == TokenType::PlusEq ==> r == TokenType::Plus,
        op == TokenType::MinusEq ==> r == TokenType::Minus,
        op == TokenType::StarEq ==> r == TokenType::Star,
        op == TokenType::SlashEq ==> r == TokenType::Slash,
        op == TokenType::PercentEq ==> r == TokenType::Percent,
        !(op == TokenType::PlusEq || op == TokenType::MinusEq || op == TokenType::StarEq || op
            == TokenType::SlashEq || op == TokenType::PercentEq) ==> r == op,
        r == arith_op(op),
{
    match op {
        TokenType::PlusEq => TokenType::Plus,
        TokenType::MinusEq => TokenType::Minus,
        TokenType::StarEq => TokenType::Star,
        TokenType::SlashEq => TokenType::Slash,
        TokenType::PercentEq => TokenType::Percent,
        other => other,
    }
}

/// Parses one statement or declaration.
#[verifier::rlimit(30)]
pub fn parse_statement_at(toks: &Vec<Token>, pos: usize) -> (r: Result<(AstNode, usize), ParseError>)
    requires
        pos <= toks.len(),
    ensures
        step_ok(toks@, pos as int, r),
        r is Err && pos == toks.len() ==> r matches Err(ParseError::EndOfInput),
        stmt_parsed_as(stmt_parse(toks@, pos as int), r),
    decreases toks.len() - pos, 5nat,
{
    let k = peek_kind(toks, pos);
    match k {
        None => Err(ParseError::EndOfInput),
        Some(TokenType::Function) => parse_function_at(toks, pos, false),
        Some(TokenType::Identifier) if is_ident_text(toks, pos, "pub") && peek_kind(toks, pos + 1) == Some(
            TokenType::Function,
        ) => {
            let r = parse_function_at(toks, pos + 1, true);
            r
        },
        Some(TokenType::Import) => parse_import_at(toks, pos),
        Some(TokenType::Let) => parse_let_at(toks, pos),
        Some(TokenType::Struct) => parse_struct_at(toks, pos),
        Some(TokenType::Enum) => parse_enum_at(toks, pos),
        Some(TokenType::Return) => parse_return_at(toks, pos),
        Some(TokenType::Print) => parse_print_at(toks, pos),
        Some(TokenType::Break) => {
            let p = expect_at(toks, pos + 1, TokenType::Semi)?;
            Ok((AstNode::Break, p))
        },
        Some(TokenType::Continue) => {
            let p = expect_at(toks, pos + 1, TokenType::Semi)?;
            Ok((AstNode::Continue, p))
        },
        Some(TokenType::If) => parse_if_at(toks, pos),
        Some(TokenType::For) => parse_for_at(toks, pos),
        Some(TokenType::OpenBrace) => {
            let (body, p) = parse_block_at(toks, pos)?;
            Ok((AstNode::Block(body), p))
        },
        _ => parse_simple_at(toks, pos),
    }
}

/// Parses `return [values];` at the `return` keyword.
fn parse_return_at(toks: &Vec<Token>, pos: usize) -> (r: Result<(AstNode, usize), ParseError>)
    requires
        pos < toks.len(),
        toks@[pos as int].kind == TokenType::Return,
    ensures
        step_ok(toks@, pos as int, r),
        stmt_parsed_as(stmt_parse(toks@, pos as int), r),
{
    let mut p = pos + 1;
    let mut values: Vec<AstNode> = Vec::new();
    if peek_kind(toks, p) != Some(TokenType::Semi) {
        let (vs, q) = parse_expr_list(toks, p, TokenType::Semi)?;
        values = vs;
        p = q;
    }
    let p = expect_at(toks, p, TokenType::Semi)?;
    Ok((AstNode::Return { values }, p))
}

/// Parses `print(values);` at the `print` keyword.
fn parse_print_at(toks: &Vec<Token>, pos: usize) -> (r: Result<(AstNode, usize), ParseError>)
    requires
        pos < toks.len(),
        toks@[pos as int].kind == TokenType::Print,
    ensures
        step_ok(toks@, pos as int, r),
        stmt_parsed_as(stmt_parse(toks@, pos as int), r),
{
    let p = expect_at(toks, pos + 1, TokenType::OpenParen)?;
    let (exprs, p) = parse_expr_list(toks, p, TokenType::CloseParen)?;
    let p = expect_at(toks, p, TokenType::CloseParen)?;
    let p = expect_at(toks, p, TokenType::Semi)?;
    Ok((AstNode::Print { exprs }, p))
}

/// Parses an assignment (`x op= e` stands for `x = x op e`) or an
/// expression statement.
fn parse_simple_at(toks: &Vec<Token>, pos: usize) -> (r: Result<(AstNode, usize), ParseError>)
    requires
        pos <= toks.len(),
    ensures
        step_ok(toks@, pos as int, r),
        stmt_parsed_as(simple_parse(toks@, pos as int), r),
{
    let (e, p) = parse_expr_at(toks, pos)?;
    let next = peek_kind(toks, p);
    if next == Some(TokenType::Eq) {
        match expr_to_pattern(&e) {
            Some(pattern) => {
                let (value, q) = parse_expr_at(toks, p + 1)?;
                let q = expect_at(toks, q, TokenType::Semi)?;
                Ok((AstNode::Assignment { pattern, value: Box::new(value) }, q))
            },
            None => Err(error_at(toks, p, String::from_str("Invalid assignment target"))),
        }
    } else {
        match is_compound_op(next) {
            Some(op) => {
                // `x op= e` stands for `x = x op e`.
                match expr_to_pattern(&e) {
                    Some(Pattern::Identifier(name)) => {
                        let (value, q) = parse_expr_at(toks, p + 1)?;
                        let q = expect_at(toks, q, TokenType::Semi)?;
                        let current = AstNode::Identifier(name.clone());
                        let sum = binary(current, arithmetic_of(op), value);
                        Ok((AstNode::Assignment { pattern: Pattern::Identifier(name), value: Box::new(sum) }, q))
                    },
                    _ => Err(error_at(toks, p, String::from_str("Invalid assignment target"))),
                }
            },
            None => {
                let q = expect_at(toks, p, TokenType::Semi)?;
                Ok((e, q))
            },
        }
    }
}

/// Parses `{ statements }`.
pub fn parse_block_at(toks: &Vec<Token>, pos: usize) -> (r: Result<(Vec<AstNode>, usize), ParseError>)
    requires
        pos <= toks.len(),
    ensures
        step_ok(toks@, pos as int, r),
        match r {
            Ok((body, p)) => block_parse(toks@, pos as int) == Some((stmts_model(body@), p as int)),
            Err(_) => block_parse(toks@, pos as int) is None,
        },
    decreases toks.len() - pos, 1nat,
{
    let mut p = expect_at(toks, pos, TokenType::OpenBrace)?;
    let mut body: Vec<AstNode> = Vec::new();
    while p < toks.len() && toks[p].kind != TokenType::CloseBrace
        invariant
            pos < p <= toks.len(),
            kind_at(toks@, pos as int) == Some(TokenType::OpenBrace),
            stmts_until(toks@, pos + 1) == match stmts_until(toks@, p as int) {
                Some((rest, q)) => Some((stmts_model(body@) + rest, q)),
                None => None,
            },
        decreases toks.len() - p,
    {
        let ghost before = body@;
        let (stmt, q) = parse_statement_at(toks, p)?;
        proof {
            lemma_stmts_model_push(before, stmt);
        }
        body.push(stmt);
        proof {
            match stmts_until(toks@, q as int) {
                Some((rest, _)) => {
                    assert(stmts_model(before) + (seq![stmt_model(stmt)] + rest) =~= stmts_model(body@) + rest);
                },
                None => {},
            }
        }
        p = q;
    }
    proof {
        assert(stmts_model(body@) + Seq::empty() =~= stmts_model(body@));
    }
    let p = expect_at(toks, p, TokenType::CloseBrace)?;
    Ok((body, p))
}

/// Parses `if cond { ... }` with an optional `else { ... }` or `else if ...`.
#[verifier::rlimit(30)]
fn parse_if_at(toks: &Vec<Token>, pos: usize) -> (r: Result<(AstNode, usize), ParseError>)
    requires
        pos <= toks.len(),
    ensures
        step_ok(toks@, pos as int, r),
        stmt_parsed_as(if_parse(toks@, pos as int), r),
    decreases toks.len() - pos, 2nat,
{
    let p = expect_at(toks, pos, TokenType::If)?;
    let (condition, p) = parse_expr_at(toks, p)?;
    let (then_block, p) = parse_block_at(toks, p)?;
    let ghost c = expr_model(condition);
    let ghost tb = stmts_model(then_block@);
    if peek_kind(toks, p) == Some(TokenType::Else) {
        if peek_kind(toks, p + 1) == Some(TokenType::If) {
            let (nested, q) = parse_if_at(toks, p + 1)?;
            let n = AstNode::ConditionalStmt {
                condition: Box::new(condition),
                then_block,
                else_branch: Some(Box::new(nested)),
            };
            assert(stmt_model(n) == StmtModel::If(c, tb, Some(Box::new(stmt_model(nested)))));
            Ok((n, q))
        } else {
            let (else_body, q) = parse_block_at(toks, p + 1)?;
            let ghost eb = else_body@;
            let blk = AstNode::Block(else_body);
            assert(stmt_model(blk) == StmtModel::Block(stmts_model(eb)));
            let n = AstNode::ConditionalStmt {
                condition: Box::new(condition),
                then_block,
                else_branch: Some(Box::new(blk)),
            };
            assert(stmt_model(n) == StmtModel::If(
                c,
                tb,
                Some(Box::new(StmtModel::Block(stmts_model(eb)))),
            ));
            Ok((n, q))
        }
    } else {
        let n = AstNode::ConditionalStmt { condition: Box::new(condition), then_block, else_branch: None };
        assert(stmt_model(n) == StmtModel::If(c, tb, None));
        Ok((n, p))
    }
}

/// Parses `for pattern in iterable { ... }` or the endless `for { ... }`.
fn parse_for_at(toks: &Vec<Token>, pos: usize) -> (r: Result<(AstNode, usize), ParseError>)
    requires
        pos <= toks.len(),
    ensures
        step_ok(toks@, pos as int, r),
        stmt_parsed_as(for_parse(toks@, pos as int), r),
    decreases toks.len() - pos, 2nat,
{
    let p = expect_at(toks, pos, TokenType::For)?;
    if peek_kind(toks, p) == Some(TokenType::OpenBrace) {
        let (body, q) = parse_block_at(toks, p)?;
        return Ok((AstNode::ForLoopStmt { pattern: Pattern::Wildcard, iterable: None, body }, q));
    }
    let (pattern, p) = parse_pattern_at(toks, p)?;
    let p = expect_at(toks, p, TokenType::In)?;
    let (iterable, p) = parse_expr_at(toks, p)?;
    let (body, p) = parse_block_at(toks, p)?;
    Ok((AstNode::ForLoopStmt { pattern, iterable: Some(Box::new(iterable)), body }, p))
}

/// Parses `fn name(params) [-> type] { body }` starting at the `fn` keyword.
#[verifier::rlimit(30)]
fn parse_function_at(toks: &Vec<Token>, pos: usize, public: bool) -> (r: Result<(AstNode, usize), ParseError>)
    requires
        pos <= toks.len(),
    ensures
        step_ok(toks@, pos as int, r),
        stmt_parsed_as(
            fn_parse(
                toks@,
                pos as int,
                if public {
                    "Public"@
                } else {
                    "Private"@
                },
            ),
            r,
        ),
    decreases toks.len() - pos, 2nat,
{
    let p = expect_at(toks, pos, TokenType::Function)?;
    let (name, p) = expect_ident(toks, p)?;
    let mut p = expect_at(toks, p, TokenType::OpenParen)?;
    let mut params: Vec<(String, Option<TypeNode>)> = Vec::new();
    if peek_kind(toks, p) != Some(TokenType::CloseParen) {
        loop
            invariant_except_break
                param_items(toks@, pos + 3) == match param_items(toks@, p as int) {
                    Some((rest, q)) => Some((variant_models(params@) + rest, q)),
                    None => None,
                },
            invariant
                pos < p <= toks.len(),
                kind_at(toks@, pos as int) == Some(TokenType::Function),
                kind_at(toks@, pos + 1) == Some(TokenType::Identifier),
                kind_at(toks@, pos + 2) == Some(TokenType::OpenParen),
                kind_at(toks@, pos + 3) != Some(TokenType::CloseParen),
            ensures
                param_items(toks@, pos + 3) == Some((variant_models(params@), p as int)),
            decreases toks.len() - p,
        {
            let ghost before = params@;
            let (pname, q) = expect_ident(toks, p)?;
            let mut q = q;
            let mut ty: Option<TypeNode> = None;
            if peek_kind(toks, q) == Some(TokenType::Colon) {
                let (t, q2) = parse_type_at(toks, q + 1)?;
                ty = Some(t);
                q = q2;
            }
            let ghost item = (pname@, opt_type_model(ty));
            params.push((pname, ty));
            proof {
                assert(params@.drop_last() =~= before);
                assert(variant_models(params@) == variant_models(before).push(item));
            }
            p = q;
            if peek_kind(toks, p) == Some(TokenType::Comma) {
                p = p + 1;
                proof {
                    match param_items(toks@, p as int) {
                        Some((rest, _)) => {
                            assert(variant_models(before) + (seq![item] + rest) =~= variant_models(params@) + rest);
                        },
                        None => {},
                    }
                }
            } else {
                proof {
                    assert(variant_models(before) + seq![item] =~= variant_models(params@));
                }
                break ;
            }
        }
    }
    let mut p = expect_at(toks, p, TokenType::CloseParen)?;
    let mut return_type: Option<TypeNode> = None;
    if peek_kind(toks, p) == Some(TokenType::Arrow) {
        let (t, q) = parse_type_at(toks, p + 1)?;
        return_type = Some(t);
        p = q;
    }
    let (body, p) = parse_block_at(toks, p)?;
    let visibility = if public {
        String::from_str("Public")
    } else {
        String::from_str("Private")
    };
    Ok((AstNode::FunctionDecl { name, visibility, params, return_type, body }, p))
}

/// Parses `import a::b::Symbol;`: all segments but the last form the module
/// path and the last one is the imported symbol; a single segment is a
/// whole-module import.
#[verifier::rlimit(30)]
fn parse_import_at(toks: &Vec<Token>, pos: usize) -> (r: Result<(AstNode, usize), ParseError>)
    requires
        pos <= toks.len(),
    ensures
        step_ok(toks@, pos as int, r),
        stmt_parsed_as(import_parse(toks@, pos as int), r),
{
    let p = expect_at(toks, pos, TokenType::Import)?;
    let (first, p) = expect_ident(toks, p)?;
    let mut segments: Vec<String> = Vec::new();
    segments.push(first);
    let mut p = p;
    let ghost p0 = p as int;
    while peek_kind(toks, p) == Some(TokenType::Colon) && peek_kind(toks, p + 1) == Some(TokenType::Colon)
        invariant
            pos < p <= toks.len(),
            p0 <= p,
            p0 == pos + 2,
            kind_at(toks@, pos as int) == Some(TokenType::Import),
            kind_at(toks@, pos + 1) == Some(TokenType::Identifier),
            segments.len() >= 1,
            segments@[0]@ == toks@[pos + 1].value@,
            import_segments(toks@, p0) == match import_segments(toks@, p as int) {
                Some((rest, q)) => Some((views(segments@).skip(1) + rest, q)),
                None => None,
            },
        decreases toks.len() - p,
    {
        let ghost before = segments@;
        assert(kind_at(toks@, p + 2) != Some(TokenType::Identifier) ==> import_segments(toks@, p as int) is None);
        let (seg, q) = expect_ident(toks, p + 2)?;
        segments.push(seg);
        proof {
            match import_segments(toks@, q as int) {
                Some((rest, _)) => {
                    assert(views(before).skip(1) + (seq![seg@] + rest) =~= views(segments@).skip(1) + rest);
                },
                None => {},
            }
        }
        p = q;
    }
    let p = expect_at(toks, p, TokenType::Semi)?;
    proof {
        assert(seq![toks@[pos + 1].value@] + views(segments@).skip(1) =~= views(segments@));
    }
    if segments.len() >= 2 {
        let ghost all = segments@;
        let symbol = segments.pop();
        proof {
            assert(views(all).drop_last() =~= Seq::new(segments@.len(), |i: int| segments@[i]@));
        }
        Ok((AstNode::Import { path: segments, symbol }, p))
    } else {
        proof {
            assert(views(segments@) =~= Seq::new(segments@.len(), |i: int| segments@[i]@));
        }
        Ok((AstNode::Import { path: segments, symbol: None }, p))
    }
}

/// Parses `let [mut] pattern [: type] = value;`.
fn parse_let_at(toks: &Vec<Token>, pos: usize) -> (r: Result<(AstNode, usize), ParseError>)
    requires
        pos <= toks.len(),
    ensures
        step_ok(toks@, pos as int, r),
        r matches Ok((n, _)) ==> n is LetDecl,
        stmt_parsed_as(let_parse(toks@, pos as int), r),
{
    let mut p = expect_at(toks, pos, TokenType::Let)?;
    let mut mutable = false;
    if peek_kind(toks, p) == Some(TokenType::Mut) {
        mutable = true;
        p = p + 1;
    }
    let (pattern, p) = parse_pattern_at(toks, p)?;
    let mut p = p;
    let mut type_annotation: Option<TypeNode> = None;
    if peek_kind(toks, p) == Some(TokenType::Colon) {
        let (t, q) = parse_type_at(toks, p + 1)?;
        type_annotation = Some(t);
        p = q;
    }
    let p = expect_at(toks, p, TokenType::Eq)?;
    let (value, p) = parse_expr_at(toks, p)?;
    let p = expect_at(toks, p, TokenType::Semi)?;
    Ok((AstNode::LetDecl { mutable, type_annotation, pattern, value: Box::new(value), is_ref_counted: None }, p))
}

/// Parses `struct Name { field: type, ... }`.
fn parse_struct_at(toks: &Vec<Token>, pos: usize) -> (r: Result<(AstNode, usize), ParseError>)
    requires
        pos <= toks.len(),
    ensures
        step_ok(toks@, pos as int, r),
        stmt_parsed_as(struct_parse(toks@, pos as int), r),
{
    let p = expect_at(toks, pos, TokenType::Struct)?;
    let (name, p) = expect_ident(toks, p)?;
    let mut p = expect_at(toks, p, TokenType::OpenBrace)?;
    let mut fields: Vec<(String, TypeNode)> = Vec::new();
    while peek_kind(toks, p) != Some(TokenType::CloseBrace)
        invariant
            pos < p <= toks.len(),
            struct_fields(toks@, pos + 3) == match struct_fields(toks@, p as int) {
                Some((rest, q)) => Some((field_models(fields@) + rest, q)),
                None => None,
            },
        decreases toks.len() - p,
    {
        let ghost before = fields@;
        let ghost p_at = p as int;
        let (fname, q) = expect_ident(toks, p)?;
        let q = expect_at(toks, q, TokenType::Colon)?;
        let (t, q) = parse_type_at(toks, q)?;
        fields.push((fname, t));
        p = q;
        if peek_kind(toks, p) == Some(TokenType::Comma) {
            p = p + 1;
        }
        proof {
            assert(fields@.drop_last() =~= before);
            match struct_fields(toks@, p as int) {
                Some((rest, _)) => {
                    assert(field_models(before) + (seq![(toks@[p_at].value@, t.model())] + rest) =~= field_models(
                        fields@,
                    ) + rest);
                },
                None => {},
            }
        }
    }
    proof {
        assert(field_models(fields@) + Seq::empty() =~= field_models(fields@));
    }
    let p = expect_at(toks, p, TokenType::CloseBrace)?;
    Ok((AstNode::StructDecl { name, fields }, p))
}

/// Parses `enum Name { Variant, Variant(type), ... }`.
fn parse_enum_at(toks: &Vec<Token>, pos: usize) -> (r: Result<(AstNode, usize), ParseError>)
    requires
        pos <= toks.len(),
    ensures
        step_ok(toks@, pos as int, r),
        stmt_parsed_as(enum_parse(toks@, pos as int), r),
{
    let p = expect_at(toks, pos, TokenType::Enum)?;
    let (name, p) = expect_ident(toks, p)?;
    let mut p = expect_at(toks, p, TokenType::OpenBrace)?;
    let mut variants: Vec<(String, Option<TypeNode>)> = Vec::new();
    while peek_kind(toks, p) != Some(TokenType::CloseBrace)
        invariant
            pos < p <= toks.len(),
            enum_variants(toks@, pos + 3) == match enum_variants(toks@, p as int) {
                Some((rest, q)) => Some((variant_models(variants@) + rest, q)),
                None => None,
            },
        decreases toks.len() - p,
    {
        let ghost before = variants@;
        let (vname, q) = expect_ident(toks, p)?;
        let mut q = q;
        let mut payload: Option<TypeNode> = None;
        if peek_kind(toks, q) == Some(TokenType::OpenParen) {
            let (t, q2) = parse_type_at(toks, q + 1)?;
            let q2 = expect_at(toks, q2, TokenType::CloseParen)?;
            payload = Some(t);
            q = q2;
        }
        let ghost item = (vname@, opt_type_model(payload));
        variants.push((vname, payload));
        p = q;
        if peek_kind(toks, p) == Some(TokenType::Comma) {
            p = p + 1;
        }
        proof {
            assert(variants@.drop_last() =~= before);
            match enum_variants(toks@, p as int) {
                Some((rest, _)) => {
                    assert(variant_models(before) + (seq![item] + rest) =~= variant_models(variants@) + rest);
                },
                None => {},
            }
        }
    }
    proof {
        assert(variant_models(variants@) + Seq::empty() =~= variant_models(variants@));
    }
    let p = expect_at(toks, p, TokenType::CloseBrace)?;
    Ok((AstNode::EnumDecl { name, variants }, p))
}


/// A parser over a token sequence with a cursor.
pub struct Parser<'a> {
    pub tokens: &'a Vec<Token>,
    pub current: usize,
}

impl<'a> Parser<'a> {
    pub fn new(tokens: &'a Vec<Token>) -> (p: Self)
        ensures
            p.tokens == tokens,
            p.current == 0,
    {
        Parser { tokens, current: 0 }
    }

    /// The token under the cursor, if any.
    pub fn peek(&self) -> (r: Option<&'a Token>)
        ensures
            self.current < self.tokens.len() ==> r == Some(&self.tokens@[self.current as int]),
            self.current >= self.tokens.len() ==> r is None,
    {
        if self.current < self.tokens.len() {
            Some(&self.tokens[self.current])
        } else {
            None
        }
    }

    /// The token under the cursor, moving past it.
    pub fn advance(&mut self) -> (r: Option<&'a Token>)
        ensures
            final(self).tokens == old(self).tokens,
            old(self).current < old(self).tokens.len() ==> r == Some(&old(self).tokens@[old(self).current as int])
                && final(self).current == old(self).current + 1,
            old(self).current >= old(self).tokens.len() ==> r is None && final(self).current == old(self).current,
    {
        if self.current < self.tokens.len() {
            let t = &self.tokens[self.current];
            self.current = self.current + 1;
            Some(t)
        } else {
            None
        }
    }

    /// Consumes a token of the given kind, or fails without moving.
    pub fn expect(&mut self, kind: TokenType) -> (r: Result<&'a Token, ParseError>)
        requires
            old(self).current <= old(self).tokens.len(),
        ensures
            final(self).tokens == old(self).tokens,
            r is Ok <==> (old(self).current < old(self).tokens.len() && old(self).tokens@[old(self).current as int].kind
                == kind),
            r matches Ok(t) ==> t == &old(self).tokens@[old(self).current as int] && final(self).current == old(
                self,
            ).current + 1,
            r is Err ==> final(self).current == old(self).current,
            r matches Err(e) ==> (e is EndOfInput <==> old(self).current == old(self).tokens.len()),
    {
        match expect_at(self.tokens, self.current, kind) {
            Ok(p) => {
                let t = &self.tokens[self.current];
                self.current = p;
                Ok(t)
            },
            Err(e) => Err(e),
        }
    }

    /// Parses the statement under the cursor and moves past it; on error the
    /// cursor does not move.
    pub fn parse_statement(&mut self) -> (r: Result<AstNode, ParseError>)
        requires
            old(self).current <= old(self).tokens.len(),
        ensures
            final(self).tokens == old(self).tokens,
            r is Ok ==> old(self).current < final(self).current <= old(self).tokens.len(),
            r is Err ==> final(self).current == old(self).current,
            r matches Err(e) ==> error_at_or_after(old(self).tokens@, old(self).current as int, e),
            r matches Ok(n) ==> stmt_parse(old(self).tokens@, old(self).current as int) == Some(
                (stmt_model(n), final(self).current as int),
            ),
            r is Err ==> stmt_parse(old(self).tokens@, old(self).current as int) is None,
    {
        match parse_statement_at(self.tokens, self.current) {
            Ok((stmt, p)) => {
                self.current = p;
                Ok(stmt)
            },
            Err(e) => Err(e),
        }
    }

    /// Parses the expression under the cursor and moves past it; on error
    /// the cursor does not move.
    pub fn parse_expression(&mut self) -> (r: Result<AstNode, ParseError>)
        requires
            old(self).current <= old(self).tokens.len(),
        ensures
            final(self).tokens == old(self).tokens,
            r is Ok ==> old(self).current < final(self).current <= old(self).tokens.len(),
            r is Err ==> final(self).current == old(self).current,
            r matches Err(e) ==> error_at_or_after(old(self).tokens@, old(self).current as int, e),
            r matches Ok(e) ==> expr_parse(old(self).tokens@, old(self).current as int) == Some(
                (expr_model(e), final(self).current as int),
            ),
            r is Err ==> expr_parse(old(self).tokens@, old(self).current as int) is None,
    {
        match parse_expr_at(self.tokens, self.current) {
            Ok((e, p)) => {
                self.current = p;
                Ok(e)
            },
            Err(e) => Err(e),
        }
    }

    /// Parses the type under the cursor and moves past it; on error the
    /// cursor does not move.
    pub fn parse_type_annotation(&mut self) -> (r: Result<TypeNode, ParseError>)
        requires
            old(self).current <= old(self).tokens.len(),
        ensures
            final(self).tokens == old(self).tokens,
            match r {
                Ok(t) => type_parse(old(self).tokens@, old(self).current as int) == Some((t.model(), final(self).current as int)),
                Err(_) => type_parse(old(self).tokens@, old(self).current as int) is None,
            },
            r is Ok ==> old(self).current < final(self).current <= old(self).tokens.len(),
            r is Err ==> final(self).current == old(self).current,
            r matches Err(e) ==> error_at_or_after(old(self).tokens@, old(self).current as int, e),
    {
        match parse_type_at(self.tokens, self.current) {
            Ok((t, p)) => {
                self.current = p;
                Ok(t)
            },
            Err(e) => Err(e),
        }
    }

    /// Parses a `let` declaration under the cursor and moves past it; on
    /// error the cursor does not move.
    pub fn parse_var_decl(&mut self) -> (r: Result<AstNode, ParseError>)
        requires
            old(self).current <= old(self).tokens.len(),
        ensures
            final(self).tokens == old(self).tokens,
            r matches Ok(n) ==> n is LetDecl && old(self).current < final(self).current <= old(self).tokens.len(),
            r is Err ==> final(self).current == old(self).current,
            r matches Err(e) ==> error_at_or_after(old(self).tokens@, old(self).current as int, e),
            r matches Ok(n) ==> let_parse(old(self).tokens@, old(self).current as int) == Some(
                (stmt_model(n), final(self).current as int),
            ),
            r is Err ==> let_parse(old(self).tokens@, old(self).current as int) is None,
    {
        match parse_let_at(self.tokens, self.current) {
            Ok((n, p)) => {
                self.current = p;
                Ok(n)
            },
            Err(e) => Err(e),
        }
    }

    /// Parses an array literal `[a, b, ...]` under the cursor and moves past
    /// it; on error the cursor does not move.
    pub fn parse_array_literal(&mut self) -> (r: Result<AstNode, ParseError>)
        requires
            old(self).current <= old(self).tokens.len(),
        ensures
            final(self).tokens == old(self).tokens,
            r matches Ok(n) ==> n is ArrayLiteral && old(self).current < final(self).current <= old(self).tokens.len(),
            r is Err ==> final(self).current == old(self).current,
            r matches Err(e) ==> error_at_or_after(old(self).tokens@, old(self).current as int, e),
            (old(self).current < old(self).tokens.len() && old(self).tokens@[old(self).current as int].kind
                != TokenType::OpenBracket) ==> r is Err,
            r matches Ok(n) ==> kind_at(old(self).tokens@, old(self).current as int) == Some(TokenType::OpenBracket)
                && array_rest(old(self).tokens@, old(self).current + 1) == Some((expr_model(n), final(self).current as int)),
            r is Err ==> kind_at(old(self).tokens@, old(self).current as int) != Some(TokenType::OpenBracket) || array_rest(
                old(self).tokens@,
                old(self).current + 1,
            ) is None,
    {
        let p = expect_at(self.tokens, self.current, TokenType::OpenBracket)?;
        match parse_array_rest(self.tokens, p) {
            Ok((n, q)) => {
                self.current = q;
                Ok(n)
            },
            Err(e) => Err(e),
        }
    }

    /// Parses a map literal `{k: v, ...}` under the cursor and moves past
    /// it; on error the cursor does not move.
    pub fn parse_map_literal(&mut self) -> (r: Result<AstNode, ParseError>)
        requires
            old(self).current <= old(self).tokens.len(),
        ensures
            final(self).tokens == old(self).tokens,
            r matches Ok(n) ==> n is MapLiteral && old(self).current < final(self).current <= old(self).tokens.len(),
            r is Err ==> final(self).current == old(self).current,
            r matches Err(e) ==> error_at_or_after(old(self).tokens@, old(self).current as int, e),
            (old(self).current < old(self).tokens.len() && old(self).tokens@[old(self).current as int].kind
                != TokenType::OpenBrace) ==> r is Err,
            r matches Ok(n) ==> kind_at(old(self).tokens@, old(self).current as int) == Some(TokenType::OpenBrace)
                && map_rest(old(self).tokens@, old(self).current + 1) == Some((expr_model(n), final(self).current as int)),
            r is Err ==> kind_at(old(self).tokens@, old(self).current as int) != Some(TokenType::OpenBrace) || map_rest(
                old(self).tokens@,
                old(self).current + 1,
            ) is None,
    {
        let p = expect_at(self.tokens, self.current, TokenType::OpenBrace)?;
        match parse_map_rest(self.tokens, p) {
            Ok((n, q)) => {
                self.current = q;
                Ok(n)
            },
            Err(e) => Err(e),
        }
    }

    /// Parses statements until the tokens run out; the first error stops it.
    pub fn parse_program(&mut self) -> (r: Result<AstNode, ParseError>)
        requires
            old(self).current <= old(self).tokens.len(),
        ensures
            final(self).tokens == old(self).tokens,
            r matches Ok(n) ==> n is Program && final(self).current == old(self).tokens.len(),
            old(self).current == old(self).tokens.len() ==> (r matches Ok(AstNode::Program(v)) && v.len() == 0),
            r matches Err(e) ==> error_at_or_after(old(self).tokens@, old(self).current as int, e),
            r matches Ok(AstNode::Program(v)) ==> program_parse(old(self).tokens@, old(self).current as int) == Some(
                stmts_model(v@),
            ),
            r is Err ==> program_parse(old(self).tokens@, old(self).current as int) is None,
    {
        let mut statements: Vec<AstNode> = Vec::new();
        let ghost start = self.current;
        while self.current < self.tokens.len()
            invariant
                self.tokens == old(self).tokens,
                start == old(self).current,
                start <= self.current <= self.tokens.len(),
                start == self.tokens.len() ==> statements.len() == 0,
                program_parse(self.tokens@, start as int) == match program_parse(self.tokens@, self.current as int) {
                    Some(rest) => Some(stmts_model(statements@) + rest),
                    None => None,
                },
            decreases self.tokens.len() - self.current,
        {
            let ghost before = statements@;
            let stmt = self.parse_statement()?;
            proof {
                lemma_stmts_model_push(before, stmt);
            }
            statements.push(stmt);
            proof {
                match program_parse(self.tokens@, self.current as int) {
                    Some(rest) => {
                        assert(stmts_model(before) + (seq![stmt_model(stmt)] + rest) =~= stmts_model(statements@) + rest);
                    },
                    None => {},
                }
            }
        }
        proof {
            assert(stmts_model(statements@) + Seq::empty() =~= stmts_model(statements@));
        }
        Ok(AstNode::Program(statements))
    }
}

} // verus!
