use crate::lexar::chars::{is_alnum, is_dec_digit, is_alphabetic, is_alphanumeric, is_digit, is_whitespace, str_chars, string_from_chars};
use crate::lexar::spec::{block_scan, find_quote, keyword, lex_from, lex_spec, number_scan, op1, op2, op3, op_at, scan_digits, scan_word, skip_line, step};
use crate::lexar::token::{Token, TokenModel, TokenType};
use vstd::prelude::*;

verus! {

pub open spec fn opt_view(t: Option<Token>) -> Option<TokenModel> {
    match t {
        Some(tk) => Some(tk@),
        None => None,
    }
}

pub open spec fn tokens_view(ts: Seq<Token>) -> Seq<TokenModel> {
    ts.map_values(|t: Token| t@)
}

/// Whether `v[s..e]` spells `lit`.
fn word_eq(v: &Vec<char>, s: usize, e: usize, lit: &[char]) -> (r: bool)
    requires
        s <= e <= v.len(),
    ensures
        r == (v@.subrange(s as int, e as int) == lit@),
{
    if e - s != lit.len() {
        return false;
    }
    let mut k: usize = 0;
    while k < lit.len()
        invariant
            s <= e <= v.len(),
            e - s == lit.len(),
            k <= lit.len(),
            forall|j: int| 0 <= j < k ==> v@[s + j] == lit@[j],
        decreases lit.len() - k,
    {
        if v[s + k] != lit[k] {
            assert(v@.subrange(s as int, e as int)[k as int] != lit@[k as int]);
            return false;
        }
        k += 1;
    }
    assert(v@.subrange(s as int, e as int) =~= lit@);
    true
}

/// The keyword kind of the word `v[s..e]`, if it is a reserved word.
fn keyword_kind(v: &Vec<char>, s: usize, e: usize) -> (r: Option<TokenType>)
    requires
        s <= e <= v.len(),
    ensures
        r == keyword(v@.subrange(s as int, e as int)),
{
    if word_eq(v, s, e, &['l', 'e', 't']) {
        Some(TokenType::Let)
    } else if word_eq(v, s, e, &['m', 'u', 't']) {
        Some(TokenType::Mut)
    } else if word_eq(v, s, e, &['f', 'n']) {
        Some(TokenType::Function)
    } else if word_eq(v, s, e, &['i', 'm', 'p', 'o', 'r', 't']) {
        Some(TokenType::Import)
    } else if word_eq(v, s, e, &['s', 't', 'r', 'u', 'c', 't']) {
        Some(TokenType::Struct)
    } else if word_eq(v, s, e, &['e', 'n', 'u', 'm']) {
        Some(TokenType::Enum)
    } else if word_eq(v, s, e, &['i', 'f']) {
        Some(TokenType::If)
    } else if word_eq(v, s, e, &['e', 'l', 's', 'e']) {
        Some(TokenType::Else)
    } else if word_eq(v, s, e, &['f', 'o', 'r']) {
        Some(TokenType::For)
    } else if word_eq(v, s, e, &['i', 'n']) {
        Some(TokenType::In)
    } else if word_eq(v, s, e, &['r', 'e', 't', 'u', 'r', 'n']) {
        Some(TokenType::Return)
    } else if word_eq(v, s, e, &['b', 'r', 'e', 'a', 'k']) {
        Some(TokenType::Break)
    } else if word_eq(v, s, e, &['c', 'o', 'n', 't', 'i', 'n', 'u', 'e']) {
        Some(TokenType::Continue)
    } else if word_eq(v, s, e, &['p', 'r', 'i', 'n', 't']) {
        Some(TokenType::Print)
    } else if word_eq(v, s, e, &['t', 'r', 'u', 'e']) {
        Some(TokenType::Boolean)
    } else if word_eq(v, s, e, &['f', 'a', 'l', 's', 'e']) {
        Some(TokenType::Boolean)
    } else {
        None
    }
}

fn op3_kind(a: char, b: char, c: char) -> (r: Option<TokenType>)
    ensures
        r == op3(a, b, c),
{
    if a == '=' && b == '=' && c == '=' {
        Some(TokenType::EqEqEq)
    } else if a == '!' && b == '=' && c == '=' {
        Some(TokenType::NotEqEq)
    } else if a == '.' && b == '.' && c == '=' {
        Some(TokenType::RangeInc)
    } else {
        None
    }
}

fn op2_kind(a: char, b: char) -> (r: Option<TokenType>)
    ensures
        r == op2(a, b),
{
    if a == '=' && b == '=' {
        Some(TokenType::EqEq)
    } else if a == '!' && b == '=' {
        Some(TokenType::NotEq)
    } else if a == '>' && b == '=' {
        Some(TokenType::GtEq)
    } else if a == '<' && b == '=' {
        Some(TokenType::LtEq)
    } else if a == '&' && b == '&' {
        Some(TokenType::AndAnd)
    } else if a == '|' && b == '|' {
        Some(TokenType::OrOr)
    } else if a == '+' && b == '=' {
        Some(TokenType::PlusEq)
    } else if a == '-' && b == '=' {
        Some(TokenType::MinusEq)
    } else if a == '*' && b == '=' {
        Some(TokenType::StarEq)
    } else if a == '/' && b == '=' {
        Some(TokenType::SlashEq)
    } else if a == '%' && b == '=' {
        Some(TokenType::PercentEq)
    } else if a == '-' && b == '>' {
        Some(TokenType::Arrow)
    } else if a == '=' && b == '>' {
        Some(TokenType::FatArrow)
    } else if a == '.' && b == '.' {
        Some(TokenType::RangeExc)
    } else {
        None
    }
}

fn op1_kind(a: char) -> (r: Option<TokenType>)
    ensures
        r == op1(a),
{
    if a == '=' {
        Some(TokenType::Eq)
    } else if a == '+' {
        Some(TokenType::Plus)
    } else if a == '-' {
        Some(TokenType::Minus)
    } else if a == '*' {
        Some(TokenType::Star)
    } else if a == '/' {
        Some(TokenType::Slash)
    } else if a == '%' {
        Some(TokenType::Percent)
    } else if a == '!' {
        Some(TokenType::Bang)
    } else if a == '<' {
        Some(TokenType::Lt)
    } else if a == '>' {
        Some(TokenType::Gt)
    } else if a == '&' {
        Some(TokenType::And)
    } else if a == '|' {
        Some(TokenType::Or)
    } else if a == '(' {
        Some(TokenType::OpenParen)
    } else if a == ')' {
        Some(TokenType::CloseParen)
    } else if a == '{' {
        Some(TokenType::OpenBrace)
    } else if a == '}' {
        Some(TokenType::CloseBrace)
    } else if a == '[' {
        Some(TokenType::OpenBracket)
    } else if a == ']' {
        Some(TokenType::CloseBracket)
    } else if a == ',' {
        Some(TokenType::Comma)
    } else if a == ';' {
        Some(TokenType::Semi)
    } else if a == '.' {
        Some(TokenType::Dot)
    } else if a == ':' {
        Some(TokenType::Colon)
    } else if a == '#' {
        Some(TokenType::Pound)
    } else if a == '~' {
        Some(TokenType::Tilde)
    } else if a == '?' {
        Some(TokenType::Question)
    } else if a == '$' {
        Some(TokenType::Dollar)
    } else if a == '_' {
        Some(TokenType::Underscore)
    } else {
        None
    }
}

/// The operator starting at `i`, trying lengths three, two, then one.
fn operator_at(v: &Vec<char>, i: usize) -> (r: Option<(TokenType, usize)>)
    requires
        i < v.len(),
        v.len() <= usize::MAX / 4,
    ensures
        match r {
            Some((k, l)) => op_at(v@, i as int) == Some((k, l as int)),
            None => op_at(v@, i as int) is None,
        },
{
    if i + 3 <= v.len() {
        if let Some(k) = op3_kind(v[i], v[i + 1], v[i + 2]) {
            return Some((k, 3));
        }
    }
    if i + 2 <= v.len() {
        if let Some(k) = op2_kind(v[i], v[i + 1]) {
            return Some((k, 2));
        }
    }
    if let Some(k) = op1_kind(v[i]) {
        return Some((k, 1));
    }
    None
}

fn skip_line_from(v: &Vec<char>, k: usize) -> (r: usize)
    requires
        k <= v.len(),
    ensures
        r as int == skip_line(v@, k as int),
        k <= r <= v.len(),
{
    let mut j = k;
    while j < v.len() && v[j] != '\n'
        invariant
            k <= j <= v.len(),
            skip_line(v@, k as int) == skip_line(v@, j as int),
        decreases v.len() - j,
    {
        j += 1;
    }
    j
}

fn find_quote_from(v: &Vec<char>, k: usize) -> (r: usize)
    requires
        k <= v.len(),
    ensures
        r as int == find_quote(v@, k as int),
        k <= r <= v.len(),
{
    let mut j = k;
    while j < v.len() && v[j] != '"'
        invariant
            k <= j <= v.len(),
            find_quote(v@, k as int) == find_quote(v@, j as int),
        decreases v.len() - j,
    {
        j += 1;
    }
    j
}

fn scan_digits_from(v: &Vec<char>, k: usize) -> (r: usize)
    requires
        k <= v.len(),
    ensures
        r as int == scan_digits(v@, k as int),
        k <= r <= v.len(),
        k < v.len() && is_dec_digit(v@[k as int]) ==> k < r,
{
    let mut j = k;
    while j < v.len() && is_digit(v[j])
        invariant
            k <= j <= v.len(),
            scan_digits(v@, k as int) == scan_digits(v@, j as int),
        decreases v.len() - j,
    {
        j += 1;
    }
    j
}

fn scan_word_from(v: &Vec<char>, k: usize) -> (r: usize)
    requires
        k <= v.len(),
    ensures
        r as int == scan_word(v@, k as int),
        k <= r <= v.len(),
        k < v.len() && (is_alnum(v@[k as int]) || v@[k as int] == '_') ==> k < r,
{
    let mut j = k;
    while j < v.len() && (is_alphanumeric(v[j]) || v[j] == '_')
        invariant
            k <= j <= v.len(),
            scan_word(v@, k as int) == scan_word(v@, j as int),
        decreases v.len() - j,
    {
        j += 1;
    }
    j
}

fn block_scan_from(v: &Vec<char>, k: usize, line: usize, col: usize) -> (r: (usize, usize, usize))
    requires
        k <= v.len(),
        v.len() <= usize::MAX / 4,
        1 <= line <= k + 1,
        1 <= col <= 3 * k + 1,
    ensures
        (r.0 as int, r.1 as int, r.2 as int) == block_scan(v@, k as int, line as int, col as int),
        k <= r.0 <= v.len(),
        1 <= r.1 <= r.0 + 1,
        1 <= r.2 <= col + (r.0 - k),
{
    let mut j = k;
    let mut l = line;
    let mut c = col;
    while j + 1 < v.len() && !(v[j] == '*' && v[j + 1] == '/')
        invariant
            k <= j <= v.len(),
            v.len() <= usize::MAX / 4,
            1 <= l <= j + 1,
            1 <= c <= col + (j - k),
            col <= 3 * k + 1,
            block_scan(v@, k as int, line as int, col as int) == block_scan(v@, j as int, l as int, c as int),
        decreases v.len() - j,
    {
        if v[j] == '\n' {
            l += 1;
            c = 1;
        } else {
            c += 1;
        }
        j += 1;
    }
    (j, l, c)
}

fn contains_underscore(v: &Vec<char>, s: usize, e: usize) -> (r: bool)
    requires
        s <= e <= v.len(),
    ensures
        r == v@.subrange(s as int, e as int).contains('_'),
{
    let ghost w = v@.subrange(s as int, e as int);
    let mut j = s;
    while j < e
        invariant
            s <= j <= e <= v.len(),
            w == v@.subrange(s as int, e as int),
            forall|q: int| 0 <= q < j - s ==> w[q] != '_',
        decreases e - j,
    {
        if v[j] == '_' {
            assert(w[j - s] == '_');
            return true;
        }
        j += 1;
    }
    false
}

/// The number literal at digit position `i`: end, float flag, column advance.
fn number_scan_at(v: &Vec<char>, i: usize) -> (r: (usize, bool, usize))
    requires
        i < v.len(),
        v.len() <= usize::MAX / 4,
    ensures
        (r.0 as int, r.1, r.2 as int) == number_scan(v@, i as int),
        is_dec_digit(v@[i as int]) ==> i < r.0,
        i <= r.0 <= v.len(),
        r.2 <= r.0 - i + 2,
        r.0 < v.len() ==> r.2 <= v.len() - i,
{
    let n = v.len();
    let k1 = scan_digits_from(v, i);
    let has_dot = k1 + 1 < n && v[k1] == '.' && is_digit(v[k1 + 1]);
    let k2 = if has_dot {
        scan_digits_from(v, k1 + 1)
    } else {
        k1
    };
    if k2 < n && (v[k2] == 'e' || v[k2] == 'E') {
        let k3 = k2 + 1;
        let k4 = if k3 < n && (v[k3] == '+' || v[k3] == '-') {
            k3 + 1
        } else {
            k3
        };
        let k5 = scan_digits_from(v, k4);
        if k5 == k4 {
            (k2, has_dot, k2 - i)
        } else {
            (k5, true, k5 - i)
        }
    } else {
        (k2, has_dot, k2 - i)
    }
}

/// One lexer step at position `i`.
fn lex_step(v: &Vec<char>, i: usize, line: usize, col: usize) -> (r: (Option<Token>, usize, usize, usize))
    requires
        i < v.len(),
        v.len() <= usize::MAX / 4,
        1 <= line <= i + 1,
        1 <= col <= 3 * i + 1,
    ensures
        (opt_view(r.0), r.1 as int, r.2 as int, r.3 as int) == step(v@, i as int, line as int, col as int),
        i < r.1 <= v.len(),
        1 <= r.2 <= r.1 + 1,
        1 <= r.3 <= 3 * r.1 + 1,
{
    let n = v.len();
    let c = v[i];
    if is_whitespace(c) {
        if c == '\n' {
            return (None, i + 1, line + 1, 1);
        } else {
            return (None, i + 1, line, col + 1);
        }
    }
    if c == '/' && i + 1 < n && v[i + 1] == '/' {
        let k = skip_line_from(v, i + 2);
        return (None, k, line, col + (k - i));
    }
    if c == '/' && i + 1 < n && v[i + 1] == '*' {
        let (k, l2, c2) = block_scan_from(v, i + 2, line, col + 2);
        if k + 1 < n && v[k] == '*' && v[k + 1] == '/' {
            return (None, k + 2, l2, c2 + 2);
        } else {
            return (None, k, l2, c2);
        }
    }
    if i + 3 <= n && c == '.' && v[i + 1] == '.' && v[i + 2] == '=' {
        let t = Token { kind: TokenType::RangeInc, value: string_from_chars(v, i, i + 3), line, col };
        return (Some(t), i + 3, line, col + 3);
    }
    if i + 2 <= n && c == '.' && v[i + 1] == '.' {
        let t = Token { kind: TokenType::RangeExc, value: string_from_chars(v, i, i + 2), line, col };
        return (Some(t), i + 2, line, col + 2);
    }
    if c == '"' {
        let k = find_quote_from(v, i + 1);
        if k < n {
            let t = Token { kind: TokenType::String, value: string_from_chars(v, i + 1, k), line, col };
            return (Some(t), k + 1, line, col + (k + 1 - i));
        } else {
            return (None, k, line, col + (k - i));
        }
    }
    if is_digit(c) {
        let (e, is_float, adv) = number_scan_at(v, i);
        let kind = if is_float {
            TokenType::Float
        } else {
            TokenType::Number
        };
        let t = Token { kind, value: string_from_chars(v, i, e), line, col };
        return (Some(t), e, line, col + adv);
    }
    if is_alphabetic(c) || c == '_' {
        let k = scan_word_from(v, i);
        let kind = if contains_underscore(v, i, k) {
            TokenType::Unknown
        } else {
            match keyword_kind(v, i, k) {
                Some(kw) => kw,
                None => TokenType::Identifier,
            }
        };
        let t = Token { kind, value: string_from_chars(v, i, k), line, col };
        return (Some(t), k, line, col + (k - i));
    }
    match operator_at(v, i) {
        Some((kind, len)) => {
            let t = Token { kind, value: string_from_chars(v, i, i + len), line, col };
            (Some(t), i + len, line, col + len)
        },
        None => {
            let t = Token { kind: TokenType::Unknown, value: string_from_chars(v, i, i + 1), line, col };
            (Some(t), i + 1, line, col + 1)
        },
    }
}

/// Splits source text into tokens. Whitespace and comments produce no token;
/// an unterminated string literal produces none either. The result is exactly
/// `lex_spec` of the input's characters.
pub fn lex(input: &str) -> (tokens: Vec<Token>)
    requires
        input@.len() <= usize::MAX / 4,
    ensures
        tokens_view(tokens@) == lex_spec(input@),
{
    let v = str_chars(input);
    let mut tokens: Vec<Token> = Vec::new();
    let mut i: usize = 0;
    let mut line: usize = 1;
    let mut col: usize = 1;
    while i < v.len()
        invariant
            v@ == input@,
            v.len() <= usize::MAX / 4,
            i <= v.len(),
            1 <= line <= i + 1,
            1 <= col <= 3 * i + 1,
            lex_spec(v@) == tokens_view(tokens@) + lex_from(v@, i as int, line as int, col as int),
        decreases v.len() - i,
    {
        let (t, i2, l2, c2) = lex_step(&v, i, line, col);
        proof {
            assert(lex_from(v@, i as int, line as int, col as int) == match opt_view(t) {
                Some(tk) => seq![tk] + lex_from(v@, i2 as int, l2 as int, c2 as int),
                None => lex_from(v@, i2 as int, l2 as int, c2 as int),
            });
        }
        match t {
            Some(tk) => {
                let ghost before = tokens@;
                tokens.push(tk);
                proof {
                    assert(tokens_view(tokens@) =~= tokens_view(before) + seq![tk@]);
                    assert(tokens_view(before) + (seq![tk@] + lex_from(v@, i2 as int, l2 as int, c2 as int))
                        =~= tokens_view(tokens@) + lex_from(v@, i2 as int, l2 as int, c2 as int));
                }
            },
            None => {},
        }
        i = i2;
        line = l2;
        col = c2;
    }
    assert(tokens_view(tokens@) + lex_from(v@, i as int, line as int, col as int) =~= tokens_view(tokens@));
    tokens
}

} // verus!
