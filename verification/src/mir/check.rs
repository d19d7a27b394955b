//! Whether a program can be lowered: the checks `build_program` needs
//! before it runs, computed, and the lowering of a whole program behind them.
use crate::lexar::chars::str_chars;
use crate::lexar::token::TokenType;
use crate::mir::builder::{
    functions_made, header_of, lemma_functions_made_mono, lowered_straight, no_global_branch_between, top_cost, top_lowerable,
    tops_cost, MirBuilder,
};
use crate::mir::cleanup::lemma_finalize_keeps_full_blocks;
use crate::mir::declarations::{fn_cost, let_pattern_cost, straight_fn_blocks};
use crate::mir::expressions::{
    bool_result, expr_cost, exprs_cost, is_range_op, lemma_exprs_cost_prefix, lemma_pairs_cost_prefix,
    lowerable, mir_type, op_type, pairs_cost, tmp_like,
};
use crate::mir::mir::MirProgram;
use crate::mir::statements::{
    all_straight, iterable_lowered, lemma_stmts_cost_prefix, pattern_cost, stmt_cost, stmt_lowerable, stmts_cost,
    stmts_lowerable,
};
use crate::parser::ast::{AstNode, Pattern, TypeModel};
use vstd::prelude::*;

verus! {

/// The kind of operand a binary operation sees.
#[derive(Clone, Copy, PartialEq, Eq, Structural)]
pub enum OperandKind {
    Int,
    Float,
    Str,
    Bool,
    Other,
}

/// The kind of a recorded type.
pub open spec fn kind_of(t: Option<TypeModel>) -> Option<OperandKind> {
    match t {
        Some(TypeModel::Int) => Some(OperandKind::Int),
        Some(TypeModel::Float) => Some(OperandKind::Float),
        Some(TypeModel::Str) => Some(OperandKind::Str),
        Some(TypeModel::Bool) => Some(OperandKind::Bool),
        Some(_) => Some(OperandKind::Other),
        None => None,
    }
}

/// `op_type` on the kinds of the operands.
pub open spec fn kind_op(l: Option<OperandKind>, r: Option<OperandKind>) -> Option<Seq<char>> {
    match (l, r) {
        (Some(OperandKind::Float), Some(OperandKind::Float)) => Some("float"@),
        (Some(OperandKind::Float), Some(OperandKind::Int)) => Some("float"@),
        (Some(OperandKind::Int), Some(OperandKind::Float)) => Some("float"@),
        (Some(OperandKind::Int), Some(OperandKind::Int)) => Some("int"@),
        (Some(OperandKind::Bool), Some(OperandKind::Bool)) => Some("bool"@),
        (Some(OperandKind::Str), Some(OperandKind::Str)) => Some("string"@),
        (Some(OperandKind::Str), _) => None,
        (_, Some(OperandKind::Str)) => None,
        (Some(_), Some(_)) => None,
        _ => Some("int"@),
    }
}

/// The operand kinds decide the operation's kind.
proof fn lemma_kind_op(l: Option<TypeModel>, r: Option<TypeModel>)
    ensures
        op_type(l, r) == kind_op(kind_of(l), kind_of(r)),
{
}

fn kind_op_exec(l: Option<OperandKind>, r: Option<OperandKind>) -> (res: u8)
    ensures
        res == 0 <==> kind_op(l, r) is None,
        res == 1 <==> kind_op(l, r) == Some("float"@),
        res == 2 <==> kind_op(l, r) == Some("int"@),
        res == 3 <==> kind_op(l, r) == Some("bool"@),
        res == 4 <==> kind_op(l, r) == Some("string"@),
{
    proof {
        reveal_strlit("float");
        reveal_strlit("int");
        reveal_strlit("bool");
        reveal_strlit("string");
        assert("float"@.len() == 5 && "int"@.len() == 3 && "bool"@.len() == 4 && "string"@.len() == 6);
    }
    match (l, r) {
        (Some(OperandKind::Float), Some(OperandKind::Float)) => 1,
        (Some(OperandKind::Float), Some(OperandKind::Int)) => 1,
        (Some(OperandKind::Int), Some(OperandKind::Float)) => 1,
        (Some(OperandKind::Int), Some(OperandKind::Int)) => 2,
        (Some(OperandKind::Bool), Some(OperandKind::Bool)) => 3,
        (Some(OperandKind::Str), Some(OperandKind::Str)) => 4,
        (Some(OperandKind::Str), _) => 0,
        (_, Some(OperandKind::Str)) => 0,
        (Some(_), Some(_)) => 0,
        _ => 2,
    }
}

fn is_range(op: TokenType) -> (r: bool)
    ensures
        r == is_range_op(op),
{
    op == TokenType::RangeExc || op == TokenType::RangeInc
}

fn is_bool_result(op: TokenType) -> (r: bool)
    ensures
        r == bool_result(op),
{
    op == TokenType::Gt || op == TokenType::Lt || op == TokenType::GtEq || op == TokenType::LtEq || op
        == TokenType::EqEq || op == TokenType::NotEq || op == TokenType::AndAnd || op == TokenType::OrOr
}

/// Only a map literal is recorded with a map type.
proof fn lemma_map_type_only_of_literal(e: AstNode)
    ensures
        mir_type(e) matches Some(TypeModel::MapOf(_, _)) ==> e is MapLiteral,
    decreases e,
{
    if let AstNode::ElementAccess { array, .. } = e {
        lemma_map_type_only_of_literal(*array);
    }
}

/// The kind of the type lowering records for an expression.
pub fn operand_kind(e: &AstNode) -> (r: Option<OperandKind>)
    ensures
        r == kind_of(mir_type(*e)),
    decreases e,
{
    match e {
        AstNode::NumberLiteral(_) => Some(OperandKind::Int),
        AstNode::FloatLiteral(_) => Some(OperandKind::Float),
        AstNode::BoolLiteral(_) => Some(OperandKind::Bool),
        AstNode::StringLiteral(_) => Some(OperandKind::Str),
        AstNode::BinaryExpr { left, op, right } => {
            if is_range(*op) {
                return None;
            }
            let l = operand_kind(left);
            let r = operand_kind(right);
            proof {
                lemma_kind_op(mir_type(**left), mir_type(**right));
            }
            if *op == TokenType::Plus && (l == Some(OperandKind::Str) || r == Some(OperandKind::Str)) {
                Some(OperandKind::Str)
            } else {
                let k = kind_op_exec(l, r);
                if k == 0 {
                    None
                } else if *op != TokenType::Plus && is_bool_result(*op) {
                    Some(OperandKind::Bool)
                } else if k == 1 {
                    Some(OperandKind::Float)
                } else {
                    Some(OperandKind::Int)
                }
            }
        },
        AstNode::ArrayLiteral(_) => Some(OperandKind::Other),
        AstNode::MapLiteral(_) => Some(OperandKind::Other),
        AstNode::ElementAccess { array, .. } => {
            proof {
                lemma_map_type_only_of_literal(**array);
            }
            match &**array {
                AstNode::MapLiteral(entries) => {
                    if entries.len() == 0 {
                        Some(OperandKind::Int)
                    } else {
                        Some(OperandKind::Other)
                    }
                },
                _ => None,
            }
        },
        _ => None,
    }
}

/// Whether a name is that of a temporary.
fn is_tmp_like(n: &String) -> (r: bool)
    ensures
        r == tmp_like(n@),
{
    let v = str_chars(n.as_str());
    v.len() > 0 && v[0] == '%'
}

/// Whether an expression lowers without a type error.
pub fn is_lowerable(e: &AstNode) -> (r: bool)
    ensures
        r == lowerable(*e),
    decreases e,
{
    match e {
        AstNode::Identifier(n) => !is_tmp_like(n),
        AstNode::BinaryExpr { left, op, right } => {
            if !is_lowerable(left) || !is_lowerable(right) {
                return false;
            }
            if is_range(*op) {
                return true;
            }
            let l = operand_kind(left);
            let r = operand_kind(right);
            proof {
                lemma_kind_op(mir_type(**left), mir_type(**right));
            }
            let k = kind_op_exec(l, r);
            if *op == TokenType::Plus {
                l == Some(OperandKind::Str) || r == Some(OperandKind::Str) || k != 0
            } else {
                k != 0 && k != 4
            }
        },
        AstNode::FunctionCall { func, args } => {
            let named = match &**func {
                AstNode::Identifier(_) => true,
                _ => false,
            };
            if !(named || is_lowerable(func)) {
                return false;
            }
            let mut i: usize = 0;
            while i < args.len()
                invariant
                    *e == (AstNode::FunctionCall { func: *func, args: *args }),
                    i <= args.len(),
                    forall|j: int| 0 <= j < i ==> lowerable(#[trigger] args@[j]),
                decreases args.len() - i,
            {
                assert(decreases_to!(*args => (*args)[i as int]));
                assert(e->FunctionCall_args == *args);
                assert(decreases_to!(*e => e->FunctionCall_args));
                let ok = is_lowerable(&args[i]);
                if !ok {
                    assert(!lowerable(args@[i as int]));
                    return false;
                }
                i = i + 1;
            }
            true
        },
        AstNode::ArrayLiteral(els) => {
            let mut i: usize = 0;
            while i < els.len()
                invariant
                    *e == AstNode::ArrayLiteral(*els),
                    i <= els.len(),
                    forall|j: int| 0 <= j < i ==> lowerable(#[trigger] els@[j]),
                decreases els.len() - i,
            {
                assert(decreases_to!(*els => (*els)[i as int]));
                assert(e->ArrayLiteral_0 == *els);
                assert(decreases_to!(*e => e->ArrayLiteral_0));
                let ok = is_lowerable(&els[i]);
                if !ok {
                    assert(!lowerable(els@[i as int]));
                    return false;
                }
                i = i + 1;
            }
            true
        },
        AstNode::MapLiteral(entries) => {
            let mut i: usize = 0;
            while i < entries.len()
                invariant
                    *e == AstNode::MapLiteral(*entries),
                    i <= entries.len(),
                    forall|j: int|
                        0 <= j < i ==> lowerable((#[trigger] entries@[j]).0) && lowerable(entries@[j].1),
                decreases entries.len() - i,
            {
                assert(decreases_to!(*entries => (*entries)[i as int]));
                assert(e->MapLiteral_0 == *entries);
                assert(decreases_to!(*e => e->MapLiteral_0));
                assert(decreases_to!((*entries)[i as int] => (*entries)[i as int].0));
                assert(decreases_to!((*entries)[i as int] => (*entries)[i as int].1));
                if !is_lowerable(&entries[i].0) || !is_lowerable(&entries[i].1) {
                    return false;
                }
                i = i + 1;
            }
            true
        },
        AstNode::ElementAccess { array, index } => is_lowerable(array) && is_lowerable(index),
        _ => true,
    }
}

/// Whether every expression of the list lowers.
fn all_lowerable(v: &Vec<AstNode>) -> (r: bool)
    ensures
        r == forall|i: int| 0 <= i < v.len() ==> lowerable(#[trigger] v@[i]),
{
    let mut i: usize = 0;
    while i < v.len()
        invariant
            i <= v.len(),
            forall|j: int| 0 <= j < i ==> lowerable(#[trigger] v@[j]),
        decreases v.len() - i,
    {
        let ok = is_lowerable(&v[i]);
        if !ok {
            return false;
        }
        i = i + 1;
    }
    true
}

fn is_iterable_lowered(it: &AstNode, pattern: &Pattern) -> (r: bool)
    ensures
        r == iterable_lowered(*it, *pattern),
{
    match it {
        AstNode::BinaryExpr { op, .. } => is_range(*op),
        AstNode::MapLiteral(_) => match pattern {
            Pattern::Tuple(ps) => ps.len() == 2,
            _ => false,
        },
        AstNode::ArrayLiteral(_) => true,
        AstNode::Identifier(_) => true,
        _ => false,
    }
}

/// Whether a statement lowers without failing, `in_loop` saying whether it
/// stands inside a loop.
pub fn is_stmt_lowerable(st: &AstNode, in_loop: bool) -> (r: bool)
    ensures
        r == stmt_lowerable(*st, in_loop),
    decreases st, 1nat,
{
    match st {
        AstNode::LetDecl { value, .. } => is_lowerable(value),
        AstNode::Assignment { value, .. } => is_lowerable(value),
        AstNode::ConditionalStmt { condition, then_block, else_branch } => {
            if !is_lowerable(condition) || !are_stmts_lowerable(then_block, in_loop) {
                return false;
            }
            match else_branch {
                Some(b) => match &**b {
                    AstNode::Block(inner) => {
                        are_stmts_lowerable(inner, in_loop)
                    },
                    _ => is_stmt_lowerable(b, in_loop),
                },
                None => true,
            }
        },
        AstNode::Return { values } => all_lowerable(values),
        AstNode::BinaryExpr { .. } => is_lowerable(st),
        AstNode::FunctionCall { .. } => is_lowerable(st),
        AstNode::Print { exprs } => all_lowerable(exprs),
        AstNode::Break => in_loop,
        AstNode::Continue => in_loop,
        AstNode::ForLoopStmt { pattern, iterable, body } => {
            if !are_stmts_lowerable(body, true) {
                return false;
            }
            match iterable {
                Some(it) => !is_iterable_lowered(it, pattern) || is_lowerable(it),
                None => true,
            }
        },
        _ => true,
    }
}

/// Whether every statement of the list lowers.
pub fn are_stmts_lowerable(v: &Vec<AstNode>, in_loop: bool) -> (r: bool)
    ensures
        r == stmts_lowerable(v@, in_loop),
    decreases v, 0nat,
{
    let mut i: usize = 0;
    while i < v.len()
        invariant
            i <= v.len(),
            forall|j: int| 0 <= j < i ==> stmt_lowerable(#[trigger] v@[j], in_loop),
        decreases v.len() - i,
    {
        let ok = is_stmt_lowerable(&v[i], in_loop);
        if !ok {
            return false;
        }
        i = i + 1;
    }
    true
}

/// Whether a top-level node lowers without failing.
pub fn is_top_lowerable(n: &AstNode, in_loop: bool) -> (r: bool)
    ensures
        r == top_lowerable(*n, in_loop),
{
    match n {
        AstNode::LetDecl { value, .. } => is_lowerable(value),
        AstNode::FunctionDecl { body, .. } => are_stmts_lowerable(body, in_loop),
        AstNode::Assignment { value, .. } => is_lowerable(value),
        AstNode::Print { exprs } => all_lowerable(exprs),
        AstNode::ConditionalStmt { .. } => is_stmt_lowerable(n, in_loop),
        AstNode::ForLoopStmt { .. } => is_stmt_lowerable(n, in_loop),
        AstNode::BinaryExpr { .. } => is_lowerable(n),
        AstNode::FunctionCall { .. } => is_lowerable(n),
        AstNode::ArrayLiteral(_) => is_lowerable(n),
        AstNode::MapLiteral(_) => is_lowerable(n),
        _ => true,
    }
}

/// `a + b`, or `None` when the sum does not fit a `usize`.
fn add_cost(a: Option<usize>, b: Option<usize>) -> (r: Option<usize>)
    ensures
        match (a, b) {
            (Some(x), Some(y)) => if x + y <= usize::MAX {
                r == Some((x + y) as usize)
            } else {
                r is None
            },
            _ => r is None,
        },
{
    match (a, b) {
        (Some(x), Some(y)) => x.checked_add(y),
        _ => None,
    }
}

/// A cost as computed: its value, or `None` when it does not fit a `usize`.
pub open spec fn cost_is(r: Option<usize>, cost: nat) -> bool {
    match r {
        Some(c) => c == cost,
        None => cost > usize::MAX,
    }
}

/// The number of temporaries lowering an expression takes.
pub fn expr_cost_of(e: &AstNode) -> (r: Option<usize>)
    ensures
        cost_is(r, expr_cost(*e)),
    decreases e, 1nat,
{
    match e {
        AstNode::Identifier(_) => Some(0),
        AstNode::BinaryExpr { left, right, .. } => add_cost(
            add_cost(expr_cost_of(left), expr_cost_of(right)),
            Some(1),
        ),
        AstNode::FunctionCall { func, args } => {
            let f = match &**func {
                AstNode::Identifier(_) => Some(0),
                _ => expr_cost_of(func),
            };
            add_cost(add_cost(exprs_cost_of(args), Some(1)), f)
        },
        AstNode::ArrayLiteral(els) => {
            add_cost(exprs_cost_of(els), Some(1))
        },
        AstNode::MapLiteral(entries) => {
            add_cost(pairs_cost_of(entries), Some(1))
        },
        AstNode::ElementAccess { array, index } => add_cost(
            add_cost(expr_cost_of(array), expr_cost_of(index)),
            Some(1),
        ),
        _ => Some(1),
    }
}

/// The sum of the expressions' costs.
pub fn exprs_cost_of(v: &Vec<AstNode>) -> (r: Option<usize>)
    ensures
        cost_is(r, exprs_cost(v@)),
    decreases v, 0nat,
{
    let mut acc: usize = 0;
    let mut i: usize = 0;
    assert(v@.take(0) =~= Seq::<AstNode>::empty());
    while i < v.len()
        invariant
            i <= v.len(),
            acc == exprs_cost(v@.take(i as int)),
        decreases v.len() - i,
    {
        assert(decreases_to!(*v => (*v)[i as int]));
        proof {
            lemma_exprs_cost_prefix(v@, i as int);
        }
        match add_cost(Some(acc), expr_cost_of(&v[i])) {
            Some(c) => acc = c,
            None => return None,
        }
        i = i + 1;
    }
    assert(v@.take(v.len() as int) =~= v@);
    Some(acc)
}

/// The sum of the costs of both sides of each entry.
pub fn pairs_cost_of(v: &Vec<(AstNode, AstNode)>) -> (r: Option<usize>)
    ensures
        cost_is(r, pairs_cost(v@)),
    decreases v, 0nat,
{
    let mut acc: usize = 0;
    let mut i: usize = 0;
    assert(v@.take(0) =~= Seq::<(AstNode, AstNode)>::empty());
    while i < v.len()
        invariant
            i <= v.len(),
            acc == pairs_cost(v@.take(i as int)),
        decreases v.len() - i,
    {
        assert(decreases_to!(*v => (*v)[i as int]));
        assert(decreases_to!((*v)[i as int] => (*v)[i as int].0));
        assert(decreases_to!((*v)[i as int] => (*v)[i as int].1));
        proof {
            lemma_pairs_cost_prefix(v@, i as int);
        }
        match add_cost(add_cost(Some(acc), expr_cost_of(&v[i].0)), expr_cost_of(&v[i].1)) {
            Some(c) => acc = c,
            None => return None,
        }
        i = i + 1;
    }
    assert(v@.take(v.len() as int) =~= v@);
    Some(acc)
}

fn pattern_cost_of(p: &Pattern) -> (r: Option<usize>)
    ensures
        cost_is(r, pattern_cost(*p)),
{
    match p {
        Pattern::Tuple(ps) => ps.len().checked_mul(2),
        _ => Some(0),
    }
}

/// The number of temporaries and blocks lowering a statement takes.
pub fn stmt_cost_of(st: &AstNode) -> (r: Option<usize>)
    ensures
        cost_is(r, stmt_cost(*st)),
    decreases st, 1nat,
{
    match st {
        AstNode::LetDecl { pattern, value, .. } => add_cost(expr_cost_of(value), pattern_cost_of(pattern)),
        AstNode::Assignment { pattern, value } => add_cost(expr_cost_of(value), pattern_cost_of(pattern)),
        AstNode::StructDecl { fields, .. } => add_cost(Some(1), Some(fields.len())),
        AstNode::EnumDecl { variants, .. } => variants.len().checked_mul(2),
        AstNode::ConditionalStmt { condition, then_block, else_branch } => {
            let e = match else_branch {
                Some(b) => match &**b {
                    AstNode::Block(inner) => {
                        stmts_cost_of(inner)
                    },
                    _ => stmt_cost_of(b),
                },
                None => Some(0),
            };
            add_cost(add_cost(add_cost(expr_cost_of(condition), Some(3)), stmts_cost_of(then_block)), e)
        },
        AstNode::Return { values } => exprs_cost_of(values),
        AstNode::BinaryExpr { .. } => expr_cost_of(st),
        AstNode::FunctionCall { .. } => expr_cost_of(st),
        AstNode::Print { exprs } => exprs_cost_of(exprs),
        AstNode::ForLoopStmt { iterable, body, .. } => {
            let it = match iterable {
                Some(it) => expr_cost_of(it),
                None => Some(0),
            };
            add_cost(add_cost(Some(16), stmts_cost_of(body)), it)
        },
        _ => Some(0),
    }
}

/// The sum of the statements' costs.
pub fn stmts_cost_of(v: &Vec<AstNode>) -> (r: Option<usize>)
    ensures
        cost_is(r, stmts_cost(v@)),
    decreases v, 0nat,
{
    let mut acc: usize = 0;
    let mut i: usize = 0;
    assert(v@.take(0) =~= Seq::<AstNode>::empty());
    while i < v.len()
        invariant
            i <= v.len(),
            acc == stmts_cost(v@.take(i as int)),
        decreases v.len() - i,
    {
        assert(decreases_to!(*v => (*v)[i as int]));
        proof {
            lemma_stmts_cost_prefix(v@, i as int);
        }
        match add_cost(Some(acc), stmt_cost_of(&v[i])) {
            Some(c) => acc = c,
            None => return None,
        }
        i = i + 1;
    }
    assert(v@.take(v.len() as int) =~= v@);
    Some(acc)
}

/// The number of temporaries and blocks lowering a top-level node takes.
pub fn top_cost_of(n: &AstNode) -> (r: Option<usize>)
    ensures
        cost_is(r, top_cost(*n)),
{
    match n {
        AstNode::LetDecl { value, pattern, .. } => add_cost(
            expr_cost_of(value),
            Some(match pattern {
                Pattern::Tuple(ps) => ps.len(),
                _ => 0,
            }),
        ),
        AstNode::FunctionDecl { body, .. } => add_cost(add_cost(stmts_cost_of(body), Some(body.len())), Some(1)),
        AstNode::StructDecl { fields, .. } => add_cost(Some(1), Some(fields.len())),
        AstNode::StringLiteral(_) => Some(1),
        AstNode::EnumDecl { variants, .. } => variants.len().checked_mul(2),
        AstNode::Assignment { value, .. } => expr_cost_of(value),
        AstNode::Print { exprs } => exprs_cost_of(exprs),
        AstNode::ConditionalStmt { .. } => add_cost(stmt_cost_of(n), Some(2)),
        AstNode::ForLoopStmt { .. } => add_cost(stmt_cost_of(n), Some(2)),
        AstNode::BinaryExpr { .. } => expr_cost_of(n),
        AstNode::FunctionCall { .. } => expr_cost_of(n),
        AstNode::ArrayLiteral(_) => expr_cost_of(n),
        AstNode::MapLiteral(_) => expr_cost_of(n),
        _ => Some(0),
    }
}

/// The sum of the top-level nodes' costs.
pub fn tops_cost_of(v: &Vec<AstNode>) -> (r: Option<usize>)
    ensures
        cost_is(r, tops_cost(v@)),
{
    let mut acc: usize = 0;
    let mut i: usize = 0;
    assert(v@.take(0) =~= Seq::<AstNode>::empty());
    while i < v.len()
        invariant
            i <= v.len(),
            acc == tops_cost(v@.take(i as int)),
        decreases v.len() - i,
    {
        proof {
            crate::mir::builder::lemma_tops_cost_prefix(v@, i as int);
        }
        match add_cost(Some(acc), top_cost_of(&v[i])) {
            Some(c) => acc = c,
            None => return None,
        }
        i = i + 1;
    }
    assert(v@.take(v.len() as int) =~= v@);
    Some(acc)
}

/// A program can be lowered from a fresh builder: every top-level node
/// lowers, and the temporaries and blocks it takes can be counted.
pub open spec fn program_lowerable(nodes: Seq<AstNode>) -> bool {
    &&& forall|i: int| 0 <= i < nodes.len() ==> top_lowerable(#[trigger] nodes[i], false)
    &&& 1 + tops_cost(nodes) <= usize::MAX
}

/// Lowers the program to its final form, or `None` when it cannot be
/// lowered (a node that does not lower, or more temporaries than a
/// `usize` counts).
pub fn lower_program(nodes: &Vec<AstNode>) -> (r: Option<MirProgram>)
    ensures
        r is Some <==> program_lowerable(nodes@),
        r matches Some(p) ==> p.is_main_entry && p.functions@.len() == functions_made(nodes@) && forall|j: int|
            0 <= j < nodes@.len() ==> (#[trigger] nodes@[j] is FunctionDecl ==> header_of(
                p.functions@[functions_made(nodes@.take(j)) as int],
                nodes@[j],
            )) && (no_global_branch_between(nodes@, j, nodes@.len() as int) ==> lowered_straight(
                p.functions@[functions_made(nodes@.take(j)) as int],
                nodes@[j],
            )),
{
    let mut i: usize = 0;
    while i < nodes.len()
        invariant
            i <= nodes.len(),
            forall|j: int| 0 <= j < i ==> top_lowerable(#[trigger] nodes@[j], false),
        decreases nodes.len() - i,
    {
        let ok = is_top_lowerable(&nodes[i], false);
        if !ok {
            assert(!top_lowerable(nodes@[i as int], false));
            return None;
        }
        i = i + 1;
    }
    let cost = match tops_cost_of(nodes) {
        Some(c) => c,
        None => return None,
    };
    if cost == usize::MAX {
        return None;
    }
    let mut builder = MirBuilder::new();
    builder.build_program(nodes.as_slice());
    let ghost built = builder;
    builder.finalize();
    proof {
        assert forall|j: int| 0 <= j < nodes@.len() implies (#[trigger] nodes@[j] is FunctionDecl ==> header_of(
            builder.program.functions@[functions_made(nodes@.take(j)) as int],
            nodes@[j],
        )) && (no_global_branch_between(nodes@, j, nodes@.len() as int) ==> lowered_straight(
            builder.program.functions@[functions_made(nodes@.take(j)) as int],
            nodes@[j],
        )) by {
            if nodes@[j] is FunctionDecl {
                let k = functions_made(nodes@.take(j)) as int;
                lemma_functions_made_mono(nodes@, j + 1, nodes@.len() as int);
                assert(nodes@.take(j + 1).drop_last() =~= nodes@.take(j));
                assert(nodes@.take(nodes@.len() as int) =~= nodes@);
                assert(builder.program.functions@[k].name == built.program.functions@[k].name);
                assert(builder.program.functions@[k].params == built.program.functions@[k].params);
                assert(builder.program.functions@[k].param_types == built.program.functions@[k].param_types);
                assert(builder.program.functions@[k].return_type == built.program.functions@[k].return_type);
                if let AstNode::FunctionDecl { return_type, body, .. } = nodes@[j] {
                    if all_straight(body@) && no_global_branch_between(nodes@, j, nodes@.len() as int) {
                        let bs = built.program.functions@[k].blocks@;
                        let w = choose|c: nat, b: nat| #[trigger] straight_fn_blocks(bs, body@, c, b, return_type is None);
                        assert(straight_fn_blocks(bs, body@, w.0, w.1, return_type is None));
                        lemma_finalize_keeps_full_blocks(bs);
                        assert(builder.program.functions@[k].blocks@ == bs);
                    }
                }
            }
        }
    }
    Some(builder.program)
}

} // verus!
