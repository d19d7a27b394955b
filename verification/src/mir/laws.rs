//! Laws of lowering and printing MIR: operator tags name their operators
//! apart, and the text of a conditional jump names its branches in order.
use crate::lexar::token::TokenType;
use crate::mir::expressions::binary_tag;
use crate::mir::mir::MirInstr;
use crate::mir::text::instr_text;
use crate::parser::ast::{AstNode, TypeModel};
use vstd::prelude::*;

verus! {

/// The binary operators lowered to a tagged operation: arithmetic,
/// comparisons and logic.
pub open spec fn tagged_operator(op: TokenType) -> bool {
    ||| op == TokenType::Plus
    ||| op == TokenType::Minus
    ||| op == TokenType::Star
    ||| op == TokenType::Slash
    ||| op == TokenType::Percent
    ||| op == TokenType::Gt
    ||| op == TokenType::Lt
    ||| op == TokenType::GtEq
    ||| op == TokenType::LtEq
    ||| op == TokenType::EqEq
    ||| op == TokenType::NotEq
    ||| op == TokenType::AndAnd
    ||| op == TokenType::OrOr
}

/// The name part of an operator tag: what comes before the `:`.
pub open spec fn tag_name(tag: Seq<char>) -> Seq<char>
    decreases tag.len(),
{
    if tag.len() == 0 || tag[0] == ':' {
        Seq::empty()
    } else {
        seq![tag[0]] + tag_name(tag.drop_first())
    }
}

/// The name part of `p + ":" + x`, where `p` has no `:`, is `p`.
proof fn lemma_tag_name_of(p: Seq<char>, x: Seq<char>)
    requires
        forall|i: int| 0 <= i < p.len() ==> #[trigger] p[i] != ':',
    ensures
        tag_name(p + seq![':'] + x) == p,
    decreases p.len(),
{
    let t = p + seq![':'] + x;
    if p.len() == 0 {
        assert(t[0] == ':');
    } else {
        assert(t[0] == p[0]);
        let q = p.drop_first();
        assert forall|i: int| 0 <= i < q.len() implies #[trigger] q[i] != ':' by {
            assert(q[i] == p[i + 1]);
        }
        lemma_tag_name_of(q, x);
        assert(t.drop_first() =~= q + seq![':'] + x);
        assert(seq![p[0]] + q =~= p);
    }
}

/// Law: the name in the tag of a lowered binary operation, read back from
/// the tag, tells the operator: `-` is named `sub` (never `add`), and two
/// different operators are never named alike, whatever the operand types.
pub proof fn lemma_operator_tags(a: TokenType, b: TokenType, l: Option<TypeModel>, r: Option<TypeModel>)
    requires
        tagged_operator(a),
        tagged_operator(b),
    ensures
        a == TokenType::Minus ==> tag_name(binary_tag(a, l, r)) == seq!['s', 'u', 'b'],
        a != TokenType::Plus ==> tag_name(binary_tag(a, l, r)) != seq!['a', 'd', 'd'],
        a != b ==> tag_name(binary_tag(a, l, r)) != tag_name(binary_tag(b, l, r)),
{
    reveal_strlit("add");
    reveal_strlit("sub");
    reveal_strlit("mul");
    reveal_strlit("div");
    reveal_strlit("mod");
    reveal_strlit("gt");
    reveal_strlit("lt");
    reveal_strlit("ge");
    reveal_strlit("le");
    reveal_strlit("eq");
    reveal_strlit("ne");
    reveal_strlit("and");
    reveal_strlit("or");
    reveal_strlit(":");
    reveal_strlit("int");
    reveal_strlit("float");
    reveal_strlit("bool");
    reveal_strlit("string");
    lemma_tag_name_of_op(a, l, r);
    lemma_tag_name_of_op(b, l, r);
    let na = tag_name(binary_tag(a, l, r));
    let nb = tag_name(binary_tag(b, l, r));
    assert(na.len() >= 2 && nb.len() >= 2);
    if a != b {
        assert(na.len() != nb.len() || na[0] != nb[0] || na[1] != nb[1]);
    }
}

/// Law: the operand kind in a tag says how the operation computes: two
/// `Int`s are tagged `int`, two `Float`s `float`, and an `Int` with a
/// `Float`, in either order, `float`.
pub proof fn lemma_operand_kinds()
    ensures
        crate::mir::expressions::op_type(Some(TypeModel::Int), Some(TypeModel::Int)) == Some(seq!['i', 'n', 't']),
        crate::mir::expressions::op_type(Some(TypeModel::Float), Some(TypeModel::Float)) == Some(
            seq!['f', 'l', 'o', 'a', 't'],
        ),
        crate::mir::expressions::op_type(Some(TypeModel::Int), Some(TypeModel::Float)) == Some(
            seq!['f', 'l', 'o', 'a', 't'],
        ),
        crate::mir::expressions::op_type(Some(TypeModel::Float), Some(TypeModel::Int)) == Some(
            seq!['f', 'l', 'o', 'a', 't'],
        ),
{
    reveal_strlit("int");
    reveal_strlit("float");
}

/// The mnemonic each tagged operator is named by: `+` add, `-` sub, `*`
/// mul, `/` div, `%` mod, `>` gt, `<` lt, `>=` ge, `<=` le, `==` eq, `!=`
/// ne, `&&` and, `||` or.
pub open spec fn mnemonic(op: TokenType) -> Seq<char> {
    if op == TokenType::Plus {
        seq!['a', 'd', 'd']
    } else if op == TokenType::Minus {
        seq!['s', 'u', 'b']
    } else if op == TokenType::Star {
        seq!['m', 'u', 'l']
    } else if op == TokenType::Slash {
        seq!['d', 'i', 'v']
    } else if op == TokenType::Percent {
        seq!['m', 'o', 'd']
    } else if op == TokenType::Gt {
        seq!['g', 't']
    } else if op == TokenType::Lt {
        seq!['l', 't']
    } else if op == TokenType::GtEq {
        seq!['g', 'e']
    } else if op == TokenType::LtEq {
        seq!['l', 'e']
    } else if op == TokenType::EqEq {
        seq!['e', 'q']
    } else if op == TokenType::NotEq {
        seq!['n', 'e']
    } else if op == TokenType::AndAnd {
        seq!['a', 'n', 'd']
    } else {
        seq!['o', 'r']
    }
}

/// Law: lowering `left op right` to a tagged operation (operands that are
/// not strings under `+`) names the operation by the operator's mnemonic,
/// and applies it to the two operands' values in order.
pub proof fn lemma_lowered_operator(e: AstNode, c: nat, s: Seq<MirInstr>)
    requires
        e matches AstNode::BinaryExpr { op, .. } && tagged_operator(op),
        !(e->BinaryExpr_op == TokenType::Plus && (crate::mir::expressions::mir_type(*e->BinaryExpr_left) == Some(
            TypeModel::Str,
        ) || crate::mir::expressions::mir_type(*e->BinaryExpr_right) == Some(TypeModel::Str))),
        crate::mir::expressions::emits(e, c, s),
    ensures
        s.len() > 0,
        s.last() matches MirInstr::BinaryOp(tag, _, a, b) && tag_name(tag@) == mnemonic(e->BinaryExpr_op) && a@
            == crate::mir::expressions::result_name(*e->BinaryExpr_left, c) && b@ == crate::mir::expressions::result_name(
            *e->BinaryExpr_right,
            c + crate::mir::expressions::expr_cost(*e->BinaryExpr_left),
        ),
{
    let op = e->BinaryExpr_op;
    lemma_tag_name_of_op(op, crate::mir::expressions::mir_type(*e->BinaryExpr_left), crate::mir::expressions::mir_type(
        *e->BinaryExpr_right,
    ));
    reveal_strlit("add");
    reveal_strlit("sub");
    reveal_strlit("mul");
    reveal_strlit("div");
    reveal_strlit("mod");
    reveal_strlit("gt");
    reveal_strlit("lt");
    reveal_strlit("ge");
    reveal_strlit("le");
    reveal_strlit("eq");
    reveal_strlit("ne");
    reveal_strlit("and");
    reveal_strlit("or");
}

/// The name part of an operator's tag is its operator name.
proof fn lemma_tag_name_of_op(a: TokenType, l: Option<TypeModel>, r: Option<TypeModel>)
    requires
        tagged_operator(a),
    ensures
        tag_name(binary_tag(a, l, r)) == (if a == TokenType::Plus {
            "add"@
        } else {
            crate::mir::expressions::op_name(a)
        }),
{
    reveal_strlit("add");
    reveal_strlit("sub");
    reveal_strlit("mul");
    reveal_strlit("div");
    reveal_strlit("mod");
    reveal_strlit("gt");
    reveal_strlit("lt");
    reveal_strlit("ge");
    reveal_strlit("le");
    reveal_strlit("eq");
    reveal_strlit("ne");
    reveal_strlit("and");
    reveal_strlit("or");
    reveal_strlit(":");
    let p = if a == TokenType::Plus {
        "add"@
    } else {
        crate::mir::expressions::op_name(a)
    };
    let x = match crate::mir::expressions::op_type(l, r) {
        Some(t) => t,
        None => "int"@,
    };
    assert(":"@ =~= seq![':']);
    assert(binary_tag(a, l, r) == p + seq![':'] + x);
    lemma_tag_name_of(p, x);
}

/// Law: the text of a conditional jump reads `if`, the condition, `then`,
/// the block it goes to when the condition holds, `else`, and the block it
/// goes to otherwise: after the words `if c then `, the text goes on with
/// the then-block, and it ends with ` else ` and the else-block.
pub proof fn lemma_cond_jump_text(cond: String, then_block: String, else_block: String)
    ensures
        ({
            let s = instr_text(MirInstr::CondJump { cond, then_block, else_block });
            let p = ("if "@ + cond@ + " then "@).len() as int;
            &&& s.take(p) == "if "@ + cond@ + " then "@
            &&& s.subrange(p, p + then_block@.len()) == then_block@
            &&& s.subrange(p + then_block@.len(), s.len() - else_block@.len()) == " else "@
            &&& s.skip(s.len() - else_block@.len()) == else_block@
        }),
{
    let s = instr_text(MirInstr::CondJump { cond, then_block, else_block });
    let a = "if "@ + cond@ + " then "@;
    let p = a.len() as int;
    assert(s =~= a + then_block@ + " else "@ + else_block@);
    assert(s.take(p) =~= a);
    assert(s.subrange(p, p + then_block@.len()) =~= then_block@);
    assert(s.subrange(p + then_block@.len(), s.len() - else_block@.len()) =~= " else "@);
    assert(s.skip(s.len() - else_block@.len()) =~= else_block@);
}

/// Law: the text of a jump is `jump ` followed by the block it goes to.
pub proof fn lemma_jump_text(target: String)
    ensures
        ({
            let s = instr_text(MirInstr::Jump { target });
            &&& s.take(5) == "jump "@
            &&& s.skip(5) == target@
        }),
{
    reveal_strlit("jump ");
    let s = instr_text(MirInstr::Jump { target });
    assert(s.take(5) =~= "jump "@);
    assert(s.skip(5) =~= target@);
}

/// Law: the text of a tagged operation names the result, then the tag,
/// then the left operand, then the right one, in that order: after
/// `Let d = tag `, it goes on with the left operand, `, ` and ends with the
/// right operand.
pub proof fn lemma_operation_text(tag: String, d: String, l: String, r: String)
    requires
        tag@ != "%"@,
    ensures
        ({
            let s = instr_text(MirInstr::BinaryOp(tag, d, l, r));
            let p = ("Let "@ + d@ + " = "@ + tag@ + " "@).len() as int;
            &&& s.take(p) == "Let "@ + d@ + " = "@ + tag@ + " "@
            &&& s.subrange(p, p + l@.len()) == l@
            &&& s.subrange(p + l@.len(), s.len() - r@.len()) == ", "@
            &&& s.skip(s.len() - r@.len()) == r@
        }),
{
    let s = instr_text(MirInstr::BinaryOp(tag, d, l, r));
    let a = "Let "@ + d@ + " = "@ + tag@ + " "@;
    let p = a.len() as int;
    assert(s =~= a + l@ + ", "@ + r@);
    assert(s.take(p) =~= a);
    assert(s.subrange(p, p + l@.len()) =~= l@);
    assert(s.subrange(p + l@.len(), s.len() - r@.len()) =~= ", "@);
    assert(s.skip(s.len() - r@.len()) =~= r@);
}

} // verus!
