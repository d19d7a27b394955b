//! The lexical grammar of the language, written as spec functions over the
//! characters of the source text. `lex_spec(s)` is the token sequence of `s`.
use crate::lexar::chars::{char_is_alphabetic, is_alnum, is_dec_digit, is_ws};
use crate::lexar::token::{TokenModel, TokenType};
use vstd::prelude::*;

verus! {

pub open spec fn mk(kind: TokenType, value: Seq<char>, line: int, col: int) -> TokenModel {
    TokenModel { kind, value, line, col }
}

/// Reserved words and the token kind each one gives.
pub open spec fn keyword(w: Seq<char>) -> Option<TokenType> {
    if w == seq!['l', 'e', 't'] {
        Some(TokenType::Let)
    } else if w == seq!['m', 'u', 't'] {
        Some(TokenType::Mut)
    } else if w == seq!['f', 'n'] {
        Some(TokenType::Function)
    } else if w == seq!['i', 'm', 'p', 'o', 'r', 't'] {
        Some(TokenType::Import)
    } else if w == seq!['s', 't', 'r', 'u', 'c', 't'] {
        Some(TokenType::Struct)
    } else if w == seq!['e', 'n', 'u', 'm'] {
        Some(TokenType::Enum)
    } else if w == seq!['i', 'f'] {
        Some(TokenType::If)
    } else if w == seq!['e', 'l', 's', 'e'] {
        Some(TokenType::Else)
    } else if w == seq!['f', 'o', 'r'] {
        Some(TokenType::For)
    } else if w == seq!['i', 'n'] {
        Some(TokenType::In)
    } else if w == seq!['r', 'e', 't', 'u', 'r', 'n'] {
        Some(TokenType::Return)
    } else if w == seq!['b', 'r', 'e', 'a', 'k'] {
        Some(TokenType::Break)
    } else if w == seq!['c', 'o', 'n', 't', 'i', 'n', 'u', 'e'] {
        Some(TokenType::Continue)
    } else if w == seq!['p', 'r', 'i', 'n', 't'] {
        Some(TokenType::Print)
    } else if w == seq!['t', 'r', 'u', 'e'] {
        Some(TokenType::Boolean)
    } else if w == seq!['f', 'a', 'l', 's', 'e'] {
        Some(TokenType::Boolean)
    } else {
        None
    }
}

/// Three-character operators.
pub open spec fn op3(a: char, b: char, c: char) -> Option<TokenType> {
    if a == '=' && b == '=' && c == '=' {
        Some(TokenType::EqEqEq)
    } else if a == '!' && b == '=' && c == '=' {
        Some(TokenType::NotEqEq)
    } else if a == '.' && b == '.' && c == '=' {
        Some(TokenType::RangeInc)
    } else {
        None
    }
}

/// Two-character operators.
pub open spec fn op2(a: char, b: char) -> Option<TokenType> {
    if a == '=' && b == '=' {
        Some(TokenType::EqEq)
    } else if a == '!' && b == '=' {
        Some(TokenType::NotEq)
    } else if a == '>' && b == '=' {
        Some(TokenType::GtEq)
    } else if a == '<' && b == '=' {
        Some(TokenType::LtEq)
    } else if a == '&' && b == '&' {
        Some(TokenType::AndAnd)
    } else if a == '|' && b == '|' {
        Some(TokenType::OrOr)
    } else if a == '+' && b == '=' {
        Some(TokenType::PlusEq)
    } else if a == '-' && b == '=' {
        Some(TokenType::MinusEq)
    } else if a == '*' && b == '=' {
        Some(TokenType::StarEq)
    } else if a == '/' && b == '=' {
        Some(TokenType::SlashEq)
    } else if a == '%' && b == '=' {
        Some(TokenType::PercentEq)
    } else if a == '-' && b == '>' {
        Some(TokenType::Arrow)
    } else if a == '=' && b == '>' {
        Some(TokenType::FatArrow)
    } else if a == '.' && b == '.' {
        Some(TokenType::RangeExc)
    } else {
        None
    }
}

/// One-character operators and punctuation.
pub open spec fn op1(a: char) -> Option<TokenType> {
    if a == '=' {
        Some(TokenType::Eq)
    } else if a == '+' {
        Some(TokenType::Plus)
    } else if a == '-' {
        Some(TokenType::Minus)
    } else if a == '*' {
        Some(TokenType::Star)
    } else if a == '/' {
        Some(TokenType::Slash)
    } else if a == '%' {
        Some(TokenType::Percent)
    } else if a == '!' {
        Some(TokenType::Bang)
    } else if a == '<' {
        Some(TokenType::Lt)
    } else if a == '>' {
        Some(TokenType::Gt)
    } else if a == '&' {
        Some(TokenType::And)
    } else if a == '|' {
        Some(TokenType::Or)
    } else if a == '(' {
        Some(TokenType::OpenParen)
    } else if a == ')' {
        Some(TokenType::CloseParen)
    } else if a == '{' {
        Some(TokenType::OpenBrace)
    } else if a == '}' {
        Some(TokenType::CloseBrace)
    } else if a == '[' {
        Some(TokenType::OpenBracket)
    } else if a == ']' {
        Some(TokenType::CloseBracket)
    } else if a == ',' {
        Some(TokenType::Comma)
    } else if a == ';' {
        Some(TokenType::Semi)
    } else if a == '.' {
        Some(TokenType::Dot)
    } else if a == ':' {
        Some(TokenType::Colon)
    } else if a == '#' {
        Some(TokenType::Pound)
    } else if a == '~' {
        Some(TokenType::Tilde)
    } else if a == '?' {
        Some(TokenType::Question)
    } else if a == '$' {
        Some(TokenType::Dollar)
    } else if a == '_' {
        Some(TokenType::Underscore)
    } else {
        None
    }
}

/// The longest operator (at most three characters) that starts at `i`,
/// with its length.
pub open spec fn op_at(s: Seq<char>, i: int) -> Option<(TokenType, int)> {
    if i + 3 <= s.len() && op3(s[i], s[i + 1], s[i + 2]) is Some {
        Some((op3(s[i], s[i + 1], s[i + 2])->0, 3))
    } else if i + 2 <= s.len() && op2(s[i], s[i + 1]) is Some {
        Some((op2(s[i], s[i + 1])->0, 2))
    } else if i + 1 <= s.len() && op1(s[i]) is Some {
        Some((op1(s[i])->0, 1))
    } else {
        None
    }
}

/// The position of the first newline at or after `k` (or the end).
pub open spec fn skip_line(s: Seq<char>, k: int) -> int
    decreases s.len() - k,
{
    if 0 <= k < s.len() && s[k] != '\n' {
        skip_line(s, k + 1)
    } else {
        k
    }
}

/// The position of the first `"` at or after `k` (or the end).
pub open spec fn find_quote(s: Seq<char>, k: int) -> int
    decreases s.len() - k,
{
    if 0 <= k < s.len() && s[k] != '"' {
        find_quote(s, k + 1)
    } else {
        k
    }
}

/// The end of the run of decimal digits starting at `k`.
pub open spec fn scan_digits(s: Seq<char>, k: int) -> int
    decreases s.len() - k,
{
    if 0 <= k < s.len() && is_dec_digit(s[k]) {
        scan_digits(s, k + 1)
    } else {
        k
    }
}

/// The end of the run of word characters (alphanumeric or `_`) starting at `k`.
pub open spec fn scan_word(s: Seq<char>, k: int) -> int
    decreases s.len() - k,
{
    if 0 <= k < s.len() && (is_alnum(s[k]) || s[k] == '_') {
        scan_word(s, k + 1)
    } else {
        k
    }
}

/// Scans the body of a `/* ... */` comment from `k`, stopping where `*/`
/// starts or one character before the end; gives the stop position and the
/// line and column there.
pub open spec fn block_scan(s: Seq<char>, k: int, line: int, col: int) -> (int, int, int)
    decreases s.len() - k,
{
    if 0 <= k && k + 1 < s.len() && !(s[k] == '*' && s[k + 1] == '/') {
        if s[k] == '\n' {
            block_scan(s, k + 1, line + 1, 1)
        } else {
            block_scan(s, k + 1, line, col + 1)
        }
    } else {
        (k, line, col)
    }
}

/// A number literal starting at digit position `i`: its end, whether it is a
/// float (has a fraction or an exponent), and how far the column advances.
/// An `e`/`E` (and sign) with no digits after it is not part of the number,
/// and the column comes back to it.
pub open spec fn number_scan(s: Seq<char>, i: int) -> (int, bool, int) {
    let k1 = scan_digits(s, i);
    let has_dot = k1 + 1 < s.len() && s[k1] == '.' && is_dec_digit(s[k1 + 1]);
    let k2 = if has_dot {
        scan_digits(s, k1 + 1)
    } else {
        k1
    };
    if k2 < s.len() && (s[k2] == 'e' || s[k2] == 'E') {
        let k3 = k2 + 1;
        let k4 = if k3 < s.len() && (s[k3] == '+' || s[k3] == '-') {
            k3 + 1
        } else {
            k3
        };
        let k5 = scan_digits(s, k4);
        if k5 == k4 {
            (k2, has_dot, k2 - i)
        } else {
            (k5, true, k5 - i)
        }
    } else {
        (k2, has_dot, k2 - i)
    }
}

/// The kind of a word: `Unknown` if it holds `_`, else its keyword kind, else `Identifier`.
pub open spec fn word_kind(w: Seq<char>) -> TokenType {
    if w.contains('_') {
        TokenType::Unknown
    } else {
        match keyword(w) {
            Some(k) => k,
            None => TokenType::Identifier,
        }
    }
}

/// One step of the lexer at position `i` (with `i < s.len()`): the token it
/// emits, if any, and the next position, line and column.
pub open spec fn step(s: Seq<char>, i: int, line: int, col: int) -> (Option<TokenModel>, int, int, int) {
    let n = s.len();
    let c = s[i];
    if is_ws(c) {
        if c == '\n' {
            (None, i + 1, line + 1, 1)
        } else {
            (None, i + 1, line, col + 1)
        }
    } else if c == '/' && i + 1 < n && s[i + 1] == '/' {
        let k = skip_line(s, i + 2);
        (None, k, line, col + (k - i))
    } else if c == '/' && i + 1 < n && s[i + 1] == '*' {
        let (k, l2, c2) = block_scan(s, i + 2, line, col + 2);
        if k + 1 < n && s[k] == '*' && s[k + 1] == '/' {
            (None, k + 2, l2, c2 + 2)
        } else {
            (None, k, l2, c2)
        }
    } else if i + 3 <= n && c == '.' && s[i + 1] == '.' && s[i + 2] == '=' {
        (Some(mk(TokenType::RangeInc, s.subrange(i, i + 3), line, col)), i + 3, line, col + 3)
    } else if i + 2 <= n && c == '.' && s[i + 1] == '.' {
        (Some(mk(TokenType::RangeExc, s.subrange(i, i + 2), line, col)), i + 2, line, col + 2)
    } else if c == '"' {
        let k = find_quote(s, i + 1);
        if k < n {
            (Some(mk(TokenType::String, s.subrange(i + 1, k), line, col)), k + 1, line, col + (k + 1 - i))
        } else {
            (None, k, line, col + (k - i))
        }
    } else if is_dec_digit(c) {
        let (e, is_float, adv) = number_scan(s, i);
        let kind = if is_float {
            TokenType::Float
        } else {
            TokenType::Number
        };
        (Some(mk(kind, s.subrange(i, e), line, col)), e, line, col + adv)
    } else if char_is_alphabetic(c) || c == '_' {
        let k = scan_word(s, i);
        let w = s.subrange(i, k);
        (Some(mk(word_kind(w), w, line, col)), k, line, col + (k - i))
    } else {
        match op_at(s, i) {
            Some((kind, len)) => (Some(mk(kind, s.subrange(i, i + len), line, col)), i + len, line, col + len),
            None => (Some(mk(TokenType::Unknown, s.subrange(i, i + 1), line, col)), i + 1, line, col + 1),
        }
    }
}

/// The tokens of `s` from position `i`, with the lexer at `line`/`col`.
pub open spec fn lex_from(s: Seq<char>, i: int, line: int, col: int) -> Seq<TokenModel>
    decreases s.len() - i,
{
    if 0 <= i < s.len() {
        let (t, i2, l2, c2) = step(s, i, line, col);
        if i < i2 <= s.len() {
            let rest = lex_from(s, i2, l2, c2);
            match t {
                Some(tk) => seq![tk] + rest,
                None => rest,
            }
        } else {
            Seq::empty()
        }
    } else {
        Seq::empty()
    }
}

/// The token sequence of a whole source text.
pub open spec fn lex_spec(s: Seq<char>) -> Seq<TokenModel> {
    lex_from(s, 0, 1, 1)
}

} // verus!
