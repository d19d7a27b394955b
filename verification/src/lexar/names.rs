use crate::lexar::token::TokenType;
use vstd::prelude::*;

verus! {

/// The name of a token kind, as `Debug` writes it.
pub open spec fn kind_name(k: TokenType) -> Seq<char> {
    match k {
        TokenType::Let => "Let"@,
        TokenType::Mut => "Mut"@,
        TokenType::Function => "Function"@,
        TokenType::Import => "Import"@,
        TokenType::Struct => "Struct"@,
        TokenType::Enum => "Enum"@,
        TokenType::If => "If"@,
        TokenType::Else => "Else"@,
        TokenType::For => "For"@,
        TokenType::In => "In"@,
        TokenType::Return => "Return"@,
        TokenType::Break => "Break"@,
        TokenType::Continue => "Continue"@,
        TokenType::SomeKeyword => "SomeKeyword"@,
        TokenType::Print => "Print"@,
        TokenType::Number => "Number"@,
        TokenType::Float => "Float"@,
        TokenType::String => "String"@,
        TokenType::Boolean => "Boolean"@,
        TokenType::Identifier => "Identifier"@,
        TokenType::Plus => "Plus"@,
        TokenType::Minus => "Minus"@,
        TokenType::Star => "Star"@,
        TokenType::Slash => "Slash"@,
        TokenType::Percent => "Percent"@,
        TokenType::Eq => "Eq"@,
        TokenType::PlusEq => "PlusEq"@,
        TokenType::MinusEq => "MinusEq"@,
        TokenType::StarEq => "StarEq"@,
        TokenType::SlashEq => "SlashEq"@,
        TokenType::PercentEq => "PercentEq"@,
        TokenType::EqEq => "EqEq"@,
        TokenType::EqEqEq => "EqEqEq"@,
        TokenType::NotEq => "NotEq"@,
        TokenType::NotEqEq => "NotEqEq"@,
        TokenType::Gt => "Gt"@,
        TokenType::Lt => "Lt"@,
        TokenType::GtEq => "GtEq"@,
        TokenType::LtEq => "LtEq"@,
        TokenType::Bang => "Bang"@,
        TokenType::And => "And"@,
        TokenType::Or => "Or"@,
        TokenType::AndAnd => "AndAnd"@,
        TokenType::OrOr => "OrOr"@,
        TokenType::Arrow => "Arrow"@,
        TokenType::FatArrow => "FatArrow"@,
        TokenType::OpenParen => "OpenParen"@,
        TokenType::CloseParen => "CloseParen"@,
        TokenType::OpenBrace => "OpenBrace"@,
        TokenType::CloseBrace => "CloseBrace"@,
        TokenType::OpenBracket => "OpenBracket"@,
        TokenType::CloseBracket => "CloseBracket"@,
        TokenType::Comma => "Comma"@,
        TokenType::Semi => "Semi"@,
        TokenType::Dot => "Dot"@,
        TokenType::RangeInc => "RangeInc"@,
        TokenType::RangeExc => "RangeExc"@,
        TokenType::Colon => "Colon"@,
        TokenType::At => "At"@,
        TokenType::Pound => "Pound"@,
        TokenType::Tilde => "Tilde"@,
        TokenType::Question => "Question"@,
        TokenType::Dollar => "Dollar"@,
        TokenType::Underscore => "Underscore"@,
        TokenType::Unknown => "Unknown"@,
    }
}

impl TokenType {
    /// The name of the token kind, as it appears in messages.
    pub fn name(&self) -> (r: &'static str)
        ensures
            r@ == kind_name(*self),
    {
        match self {
            TokenType::Let => "Let",
            TokenType::Mut => "Mut",
            TokenType::Function => "Function",
            TokenType::Import => "Import",
            TokenType::Struct => "Struct",
            TokenType::Enum => "Enum",
            TokenType::If => "If",
            TokenType::Else => "Else",
            TokenType::For => "For",
            TokenType::In => "In",
            TokenType::Return => "Return",
            TokenType::Break => "Break",
            TokenType::Continue => "Continue",
            TokenType::SomeKeyword => "SomeKeyword",
            TokenType::Print => "Print",
            TokenType::Number => "Number",
            TokenType::Float => "Float",
            TokenType::String => "String",
            TokenType::Boolean => "Boolean",
            TokenType::Identifier => "Identifier",
            TokenType::Plus => "Plus",
            TokenType::Minus => "Minus",
            TokenType::Star => "Star",
            TokenType::Slash => "Slash",
            TokenType::Percent => "Percent",
            TokenType::Eq => "Eq",
            TokenType::PlusEq => "PlusEq",
            TokenType::MinusEq => "MinusEq",
            TokenType::StarEq => "StarEq",
            TokenType::SlashEq => "SlashEq",
            TokenType::PercentEq => "PercentEq",
            TokenType::EqEq => "EqEq",
            TokenType::EqEqEq => "EqEqEq",
            TokenType::NotEq => "NotEq",
            TokenType::NotEqEq => "NotEqEq",
            TokenType::Gt => "Gt",
            TokenType::Lt => "Lt",
            TokenType::GtEq => "GtEq",
            TokenType::LtEq => "LtEq",
            TokenType::Bang => "Bang",
            TokenType::And => "And",
            TokenType::Or => "Or",
            TokenType::AndAnd => "AndAnd",
            TokenType::OrOr => "OrOr",
            TokenType::Arrow => "Arrow",
            TokenType::FatArrow => "FatArrow",
            TokenType::OpenParen => "OpenParen",
            TokenType::CloseParen => "CloseParen",
            TokenType::OpenBrace => "OpenBrace",
            TokenType::CloseBrace => "CloseBrace",
            TokenType::OpenBracket => "OpenBracket",
            TokenType::CloseBracket => "CloseBracket",
            TokenType::Comma => "Comma",
            TokenType::Semi => "Semi",
            TokenType::Dot => "Dot",
            TokenType::RangeInc => "RangeInc",
            TokenType::RangeExc => "RangeExc",
            TokenType::Colon => "Colon",
            TokenType::At => "At",
            TokenType::Pound => "Pound",
            TokenType::Tilde => "Tilde",
            TokenType::Question => "Question",
            TokenType::Dollar => "Dollar",
            TokenType::Underscore => "Underscore",
            TokenType::Unknown => "Unknown",
        }
    }
}

} // verus!
