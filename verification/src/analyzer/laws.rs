//! Laws of operator typing: what arithmetic accepts, and how a compound
//! assignment relates to the operator it combines with assignment.
use crate::analyzer::analyzer::SemanticAnalyzer;
use crate::analyzer::expressions::binop_type;
use crate::analyzer::statements::compound_result;
use crate::lexar::token::TokenType;
use crate::parser::ast::{AstNode, PatternModel, TypeModel};
use vstd::prelude::*;

verus! {

/// The arithmetic operators `+`, `-`, `*`, `/` and `%`.
pub open spec fn arithmetic(op: TokenType) -> bool {
    op == TokenType::Plus || op == TokenType::Minus || op == TokenType::Star || op == TokenType::Slash || op
        == TokenType::Percent
}

/// Law: every arithmetic operator takes two `Int`s to an `Int` and two
/// `Float`s to a `Float`; two strings only go together under `+`, giving a
/// string; an `Int` and a `Float`, in either order, never go together.
pub proof fn lemma_arithmetic_typing(op: TokenType)
    requires
        arithmetic(op),
    ensures
        binop_type(op, TypeModel::Int, TypeModel::Int) == Some(TypeModel::Int),
        binop_type(op, TypeModel::Float, TypeModel::Float) == Some(TypeModel::Float),
        binop_type(op, TypeModel::Str, TypeModel::Str) is Some <==> op == TokenType::Plus,
        op == TokenType::Plus ==> binop_type(op, TypeModel::Str, TypeModel::Str) == Some(TypeModel::Str),
        binop_type(op, TypeModel::Int, TypeModel::Float) is None,
        binop_type(op, TypeModel::Float, TypeModel::Int) is None,
{
}

/// Law: the result of arithmetic has the type of its operands: for any
/// operands whose types are both `Float` (or both `Int`) in the current
/// scope, applying an arithmetic operator to them is well typed, with that
/// same type.
pub proof fn lemma_arithmetic_keeps_operand_type(a: SemanticAnalyzer, left: AstNode, op: TokenType, right: AstNode)
    requires
        arithmetic(op),
        a.inferred(left) == a.inferred(right),
        a.inferred(left) == Some(TypeModel::Float) || a.inferred(left) == Some(TypeModel::Int),
    ensures
        a.inferred(AstNode::BinaryExpr { left: Box::new(left), op, right: Box::new(right) }) == a.inferred(left),
{
}

/// The comparison operators.
pub open spec fn comparison(op: TokenType) -> bool {
    op == TokenType::EqEq || op == TokenType::EqEqEq || op == TokenType::NotEq || op == TokenType::NotEqEq || op
        == TokenType::Gt || op == TokenType::Lt || op == TokenType::GtEq || op == TokenType::LtEq
}

/// Law: a comparison accepts two operands of one type, whatever it is,
/// giving a `Bool`, and rejects operands of different types; `&&` and `||`
/// accept exactly two `Bool`s, giving a `Bool`.
pub proof fn lemma_comparison_and_logic_typing(op: TokenType, l: TypeModel, r: TypeModel)
    ensures
        comparison(op) ==> (binop_type(op, l, l) == Some(TypeModel::Bool) && (l != r ==> binop_type(op, l, r) is None)),
        (op == TokenType::AndAnd || op == TokenType::OrOr) ==> (binop_type(op, l, r) is Some <==> (l == TypeModel::Bool
            && r == TypeModel::Bool)),
        (op == TokenType::AndAnd || op == TokenType::OrOr) ==> (binop_type(op, l, r) is Some ==> binop_type(op, l, r)
            == Some(TypeModel::Bool)),
{
}

/// Law: `a..b` and `a..=b` take two `Int`s to a range of `Int`s, inclusive
/// exactly for `..=`, and reject anything else.
pub proof fn lemma_range_typing(op: TokenType, l: TypeModel, r: TypeModel)
    requires
        op == TokenType::RangeExc || op == TokenType::RangeInc,
    ensures
        binop_type(op, TypeModel::Int, TypeModel::Int) == Some(
            TypeModel::Range(Box::new(TypeModel::Int), Box::new(TypeModel::Int), op == TokenType::RangeInc),
        ),
        !(l == TypeModel::Int && r == TypeModel::Int) ==> binop_type(op, l, r) is None,
{
}

/// The operator a compound assignment combines with assignment.
pub open spec fn compound_operator(op: TokenType) -> Option<TokenType> {
    if op == TokenType::PlusEq {
        Some(TokenType::Plus)
    } else if op == TokenType::MinusEq {
        Some(TokenType::Minus)
    } else if op == TokenType::StarEq {
        Some(TokenType::Star)
    } else if op == TokenType::SlashEq {
        Some(TokenType::Slash)
    } else {
        None
    }
}

/// Law: `v op= r` is allowed exactly when `v op r` is well typed, and
/// gives the same type: a compound assignment types as its operator does
/// (so `s += t` on two strings is allowed, as `s + t` is, and `s -= t` is
/// not).
pub proof fn lemma_compound_as_operator(op: TokenType, v: TypeModel, r: TypeModel)
    requires
        compound_operator(op) is Some,
    ensures
        compound_result(op, v, r) == binop_type(compound_operator(op).unwrap(), v, r),
{
}

/// Law: appending a string to a mutable string variable with `+=` is
/// allowed, whatever else the scope holds.
pub proof fn lemma_string_append_allowed(a: SemanticAnalyzer, name: Seq<char>, value: AstNode)
    requires
        a.symbol_table@.contains_key(name),
        a.symbol_table@[name].mutable,
        a.symbol_table@[name].ty == TypeModel::Str,
        a.inferred(value) == Some(TypeModel::Str),
    ensures
        a.compound_ok(PatternModel::Identifier(name), TokenType::PlusEq, value),
{
}

} // verus!
