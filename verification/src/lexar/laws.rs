//! Properties of the lexer that hold for every source text.
use crate::lexar::chars::{is_dec_digit, is_ws};
use crate::lexar::spec::{
    block_scan, find_quote, keyword, lex_from, lex_spec, number_scan, op_at, scan_digits, scan_word, skip_line,
    step, word_kind,
};
use crate::lexar::token::{TokenModel, TokenType};
use vstd::prelude::*;

verus! {

/// What every emitted token satisfies: a position of at least 1:1, a
/// nonempty text unless it is a string literal, only digits in a `Number`,
/// no quote inside a `String`, and an `Identifier` that is neither a
/// reserved word nor holds an underscore.
pub open spec fn token_ok(t: TokenModel) -> bool {
    &&& t.line >= 1
    &&& t.col >= 1
    &&& t.kind != TokenType::String ==> t.value.len() > 0
    &&& t.kind == TokenType::Number ==> forall|j: int| 0 <= j < t.value.len() ==> is_dec_digit(#[trigger] t.value[j])
    &&& t.kind == TokenType::String ==> !t.value.contains('"')
    &&& t.kind == TokenType::Identifier ==> !t.value.contains('_') && keyword(t.value) is None
}

proof fn lemma_scan_digits(s: Seq<char>, k: int)
    requires
        0 <= k <= s.len(),
    ensures
        k <= scan_digits(s, k) <= s.len(),
        forall|j: int| k <= j < scan_digits(s, k) ==> is_dec_digit(#[trigger] s[j]),
    decreases s.len() - k,
{
    if k < s.len() && is_dec_digit(s[k]) {
        lemma_scan_digits(s, k + 1);
    }
}

proof fn lemma_find_quote(s: Seq<char>, k: int)
    requires
        0 <= k <= s.len(),
    ensures
        k <= find_quote(s, k) <= s.len(),
        forall|j: int| k <= j < find_quote(s, k) ==> #[trigger] s[j] != '"',
    decreases s.len() - k,
{
    if k < s.len() && s[k] != '"' {
        lemma_find_quote(s, k + 1);
    }
}

proof fn lemma_skip_line(s: Seq<char>, k: int)
    requires
        0 <= k <= s.len(),
    ensures
        k <= skip_line(s, k) <= s.len(),
    decreases s.len() - k,
{
    if k < s.len() && s[k] != '\n' {
        lemma_skip_line(s, k + 1);
    }
}

proof fn lemma_scan_word(s: Seq<char>, k: int)
    requires
        0 <= k <= s.len(),
    ensures
        k <= scan_word(s, k) <= s.len(),
    decreases s.len() - k,
{
    if 0 <= k < s.len() && (crate::lexar::chars::is_alnum(s[k]) || s[k] == '_') {
        lemma_scan_word(s, k + 1);
    }
}

proof fn lemma_block_scan(s: Seq<char>, k: int, line: int, col: int)
    requires
        0 <= k <= s.len(),
        line >= 1,
        col >= 1,
    ensures
        k <= block_scan(s, k, line, col).0 <= s.len(),
        block_scan(s, k, line, col).1 >= 1,
        block_scan(s, k, line, col).2 >= 1,
    decreases s.len() - k,
{
    if k + 1 < s.len() && !(s[k] == '*' && s[k + 1] == '/') {
        if s[k] == '\n' {
            lemma_block_scan(s, k + 1, line + 1, 1);
        } else {
            lemma_block_scan(s, k + 1, line, col + 1);
        }
    }
}

/// One step of the lexer moves forward, keeps the position at least 1:1,
/// and emits only well-formed tokens.
proof fn lemma_step(s: Seq<char>, i: int, line: int, col: int)
    requires
        0 <= i < s.len(),
        line >= 1,
        col >= 1,
    ensures
        step(s, i, line, col).2 >= 1,
        step(s, i, line, col).3 >= 1,
        step(s, i, line, col).0 matches Some(t) ==> token_ok(t),
{
    let n = s.len();
    let c = s[i];
    if is_ws(c) {
    } else if c == '/' && i + 1 < n && s[i + 1] == '/' {
        lemma_skip_line(s, i + 2);
    } else if c == '/' && i + 1 < n && s[i + 1] == '*' {
        lemma_block_scan(s, i + 2, line, col + 2);
        assert(step(s, i, line, col).3 >= 1);
    } else if i + 3 <= n && c == '.' && s[i + 1] == '.' && s[i + 2] == '=' {
    } else if i + 2 <= n && c == '.' && s[i + 1] == '.' {
    } else if c == '"' {
        lemma_find_quote(s, i + 1);
        let k = find_quote(s, i + 1);
        let w = s.subrange(i + 1, k);
        assert forall|j: int| 0 <= j < w.len() implies w[j] != '"' by {
            assert(w[j] == s[i + 1 + j]);
        }
    } else if is_dec_digit(c) {
        let k1 = scan_digits(s, i);
        lemma_scan_digits(s, i);
        lemma_scan_digits(s, i + 1);
        assert(k1 == scan_digits(s, i + 1));
        let has_dot = k1 + 1 < s.len() && s[k1] == '.' && is_dec_digit(s[k1 + 1]);
        if has_dot {
            lemma_scan_digits(s, k1 + 1);
        }
        let k2 = if has_dot { scan_digits(s, k1 + 1) } else { k1 };
        if k2 < s.len() && (s[k2] == 'e' || s[k2] == 'E') {
            let k3 = k2 + 1;
            let k4 = if k3 < s.len() && (s[k3] == '+' || s[k3] == '-') { k3 + 1 } else { k3 };
            lemma_scan_digits(s, k4);
        }
        let (e, is_float, adv) = number_scan(s, i);
        assert(e > i && adv >= 0);
        if !is_float {
            let w = s.subrange(i, e);
            assert(e == k1);
            assert forall|j: int| 0 <= j < w.len() implies is_dec_digit(#[trigger] w[j]) by {
                assert(w[j] == s[i + j]);
            }
        }
    } else if crate::lexar::chars::char_is_alphabetic(c) || c == '_' {
        lemma_scan_word(s, i + 1);
        let k = scan_word(s, i);
        assert(k == scan_word(s, i + 1));
        let w = s.subrange(i, k);
        if word_kind(w) == TokenType::Identifier {
            if keyword(w) is Some {
                assert(word_kind(w) != TokenType::Identifier);
            }
        }
    } else {
    }
}

/// Every token the lexer emits is well formed (see `token_ok`).
pub proof fn lemma_lex_from_tokens_ok(s: Seq<char>, i: int, line: int, col: int)
    requires
        0 <= i,
        line >= 1,
        col >= 1,
    ensures
        forall|k: int| 0 <= k < lex_from(s, i, line, col).len() ==> token_ok(#[trigger] lex_from(s, i, line, col)[k]),
    decreases s.len() - i,
{
    if 0 <= i < s.len() {
        let (t, i2, l2, c2) = step(s, i, line, col);
        lemma_step(s, i, line, col);
        if i < i2 <= s.len() {
            lemma_lex_from_tokens_ok(s, i2, l2, c2);
            let rest = lex_from(s, i2, l2, c2);
            match t {
                Some(tk) => {
                    let all = seq![tk] + rest;
                    assert forall|k: int| 0 <= k < all.len() implies token_ok(#[trigger] all[k]) by {
                        if k > 0 {
                            assert(all[k] == rest[k - 1]);
                        }
                    }
                },
                None => {},
            }
        }
    }
}

/// Law: every token of every source text is well formed.
pub proof fn lemma_lex_tokens_ok(s: Seq<char>)
    ensures
        forall|k: int| 0 <= k < lex_spec(s).len() ==> token_ok(#[trigger] lex_spec(s)[k]),
{
    lemma_lex_from_tokens_ok(s, 0, 1, 1);
}

/// Law: a text made only of whitespace has no tokens.
pub proof fn lemma_lex_whitespace_only(s: Seq<char>)
    requires
        forall|j: int| 0 <= j < s.len() ==> is_ws(#[trigger] s[j]),
    ensures
        lex_spec(s) == Seq::<TokenModel>::empty(),
{
    lemma_lex_from_whitespace(s, 0, 1, 1);
}

proof fn lemma_lex_from_whitespace(s: Seq<char>, i: int, line: int, col: int)
    requires
        0 <= i,
        forall|j: int| 0 <= j < s.len() ==> is_ws(#[trigger] s[j]),
    ensures
        lex_from(s, i, line, col) == Seq::<TokenModel>::empty(),
    decreases s.len() - i,
{
    if i < s.len() {
        assert(is_ws(s[i]));
        let (t, i2, l2, c2) = step(s, i, line, col);
        lemma_lex_from_whitespace(s, i2, l2, c2);
    }
}

/// Law: a text with one line comment and nothing else has no tokens.
pub proof fn lemma_lex_comment_only(s: Seq<char>)
    requires
        s.len() >= 2,
        s[0] == '/',
        s[1] == '/',
        forall|j: int| 0 <= j < s.len() ==> #[trigger] s[j] != '\n',
    ensures
        lex_spec(s) == Seq::<TokenModel>::empty(),
{
    assert(skip_line(s, 2) == s.len()) by {
        lemma_skip_line_to_end(s, 2);
    }
    let (t, i2, l2, c2) = step(s, 0, 1, 1);
    assert(!is_ws(s[0]));
    assert(t is None && i2 == s.len());
    assert(lex_from(s, i2, l2, c2) == Seq::<TokenModel>::empty());
}

/// Law: a text that is one closed block comment, `/*`, then characters
/// among which no `*/` occurs, then `*/`, has no tokens: the whole comment,
/// its closing `*/` included, is skipped.
pub proof fn lemma_lex_block_comment_only(s: Seq<char>)
    requires
        s.len() >= 4,
        s[0] == '/',
        s[1] == '*',
        s[s.len() - 2] == '*',
        s[s.len() - 1] == '/',
        forall|j: int| 2 <= j < s.len() - 3 ==> !(#[trigger] s[j] == '*' && s[j + 1] == '/'),
    ensures
        lex_spec(s) == Seq::<TokenModel>::empty(),
{
    lemma_block_comment_skipped(s, 0, s.len() as int, 1, 1);
    let (l2, c2) = choose|l2: int, c2: int| lex_from(s, 0, 1, 1) == lex_from(s, s.len() as int, l2, c2);
    assert(lex_from(s, s.len() as int, l2, c2) == Seq::<TokenModel>::empty());
}

/// Law: a closed block comment gives no tokens, wherever it stands: lexing
/// from its `/*` gives exactly the tokens lexing gives from just after its
/// closing `*/` (at the line and column there).
pub proof fn lemma_block_comment_skipped(s: Seq<char>, i: int, e: int, line: int, col: int)
    requires
        0 <= i,
        i + 4 <= e <= s.len(),
        s[i] == '/',
        s[i + 1] == '*',
        s[e - 2] == '*',
        s[e - 1] == '/',
        forall|j: int| i + 2 <= j < e - 3 ==> !(#[trigger] s[j] == '*' && s[j + 1] == '/'),
    ensures
        exists|l2: int, c2: int| lex_from(s, i, line, col) == lex_from(s, e, l2, c2),
{
    lemma_block_scan_to_close(s, i, e, i + 2, line, col + 2);
    let (t, i2, l2, c2) = step(s, i, line, col);
    assert(!is_ws(s[i]));
    assert(t is None && i2 == e);
    assert(lex_from(s, i, line, col) == lex_from(s, e, l2, c2));
}

/// Scanning the body of a block comment with no `*/` before its closing
/// one stops at the closing `*/`.
proof fn lemma_block_scan_to_close(s: Seq<char>, i: int, e: int, k: int, line: int, col: int)
    requires
        0 <= i,
        i + 4 <= e <= s.len(),
        i + 2 <= k <= e - 2,
        s[e - 2] == '*',
        s[e - 1] == '/',
        forall|j: int| i + 2 <= j < e - 3 ==> !(#[trigger] s[j] == '*' && s[j + 1] == '/'),
    ensures
        block_scan(s, k, line, col).0 == e - 2,
    decreases e - k,
{
    if k < e - 2 {
        if k < e - 3 {
            assert(!(s[k] == '*' && s[k + 1] == '/'));
        } else {
            assert(s[k + 1] == '*');
        }
        if s[k] == '\n' {
            lemma_block_scan_to_close(s, i, e, k + 1, line + 1, 1);
        } else {
            lemma_block_scan_to_close(s, i, e, k + 1, line, col + 1);
        }
    }
}

/// Law: a line comment gives no tokens, wherever it stands: lexing from
/// its `//` gives exactly the tokens lexing gives from the end of its line
/// (the newline itself, or the end of the text).
pub proof fn lemma_line_comment_skipped(s: Seq<char>, i: int, e: int, line: int, col: int)
    requires
        0 <= i,
        i + 2 <= e <= s.len(),
        s[i] == '/',
        s[i + 1] == '/',
        forall|j: int| i + 2 <= j < e ==> #[trigger] s[j] != '\n',
        e == s.len() || s[e] == '\n',
    ensures
        exists|c2: int| lex_from(s, i, line, col) == lex_from(s, e, line, c2),
{
    lemma_skip_line_at(s, i, e, i + 2);
    let (t, i2, l2, c2) = step(s, i, line, col);
    assert(!is_ws(s[i]));
    assert(t is None && i2 == e && l2 == line);
    assert(lex_from(s, i, line, col) == lex_from(s, e, line, c2));
}

proof fn lemma_skip_line_at(s: Seq<char>, i: int, e: int, k: int)
    requires
        0 <= i,
        i + 2 <= k <= e <= s.len(),
        forall|j: int| i + 2 <= j < e ==> #[trigger] s[j] != '\n',
        e == s.len() || s[e] == '\n',
    ensures
        skip_line(s, k) == e,
    decreases e - k,
{
    if k < e {
        lemma_skip_line_at(s, i, e, k + 1);
    }
}

proof fn lemma_skip_line_to_end(s: Seq<char>, k: int)
    requires
        0 <= k <= s.len(),
        forall|j: int| 0 <= j < s.len() ==> #[trigger] s[j] != '\n',
    ensures
        skip_line(s, k) == s.len(),
    decreases s.len() - k,
{
    if k < s.len() {
        lemma_skip_line_to_end(s, k + 1);
    }
}

} // verus!
