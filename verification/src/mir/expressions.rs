//! Lowering of expressions: each expression becomes instructions that
//! compute it into a fresh temporary (an identifier stands for itself).
use crate::analyzer::types::display_type;
use crate::lexar::token::TokenType;
use crate::mir::builder::{lemma_tmp_names_distinct, tmp_name, MirBuilder};
use crate::text::views;
use crate::mir::mir::{MirBlock, MirInstr};
use crate::parser::ast::{AstNode, TypeModel, TypeNode};
use vstd::prelude::*;
use vstd::string::StringExecFns;

verus! {

broadcast use vstd::std_specs::vec::group_vec_axioms;

/// The type recorded for a name, if any.
pub open spec fn tracked_type(tab: Map<Seq<char>, TypeModel>, k: Seq<char>) -> Option<TypeModel> {
    if tab.contains_key(k) {
        Some(tab[k])
    } else {
        None
    }
}

/// The operand kind of a binary operation on operands of these recorded
/// types: `float` when a float meets a float or an int, `int` for two ints
/// (and when a type is unknown), `bool` for two bools, `string` for two
/// strings; `None` for a string with anything else or any other mix.
pub open spec fn op_type(l: Option<TypeModel>, r: Option<TypeModel>) -> Option<Seq<char>> {
    match (l, r) {
        (Some(TypeModel::Float), Some(TypeModel::Float)) => Some("float"@),
        (Some(TypeModel::Float), Some(TypeModel::Int)) => Some("float"@),
        (Some(TypeModel::Int), Some(TypeModel::Float)) => Some("float"@),
        (Some(TypeModel::Int), Some(TypeModel::Int)) => Some("int"@),
        (Some(TypeModel::Bool), Some(TypeModel::Bool)) => Some("bool"@),
        (Some(TypeModel::Str), Some(TypeModel::Str)) => Some("string"@),
        (Some(TypeModel::Str), _) => None,
        (_, Some(TypeModel::Str)) => None,
        (Some(_), Some(_)) => None,
        _ => Some("int"@),
    }
}

/// The names temporaries have: they start with `%`, which no identifier does.
pub open spec fn tmp_like(n: Seq<char>) -> bool {
    n.len() > 0 && n[0] == '%'
}

/// Every recorded type is that of a temporary.
pub open spec fn tmp_keys(tab: Map<Seq<char>, TypeModel>) -> bool {
    forall|k: Seq<char>| tab.contains_key(k) ==> tmp_like(k)
}

/// The operator name of a binary operator other than `+` and the ranges.
pub open spec fn op_name(op: TokenType) -> Seq<char> {
    if op == TokenType::Minus {
        "sub"@
    } else if op == TokenType::Star {
        "mul"@
    } else if op == TokenType::Slash {
        "div"@
    } else if op == TokenType::Gt {
        "gt"@
    } else if op == TokenType::Lt {
        "lt"@
    } else if op == TokenType::GtEq {
        "ge"@
    } else if op == TokenType::LtEq {
        "le"@
    } else if op == TokenType::EqEq {
        "eq"@
    } else if op == TokenType::NotEq {
        "ne"@
    } else if op == TokenType::Percent {
        "mod"@
    } else if op == TokenType::AndAnd {
        "and"@
    } else if op == TokenType::OrOr {
        "or"@
    } else {
        "unknown"@
    }
}

/// Operators whose result is a `Bool`.
pub open spec fn bool_result(op: TokenType) -> bool {
    op == TokenType::Gt || op == TokenType::Lt || op == TokenType::GtEq || op == TokenType::LtEq || op
        == TokenType::EqEq || op == TokenType::NotEq || op == TokenType::AndAnd || op == TokenType::OrOr
}

pub open spec fn is_range_op(op: TokenType) -> bool {
    op == TokenType::RangeExc || op == TokenType::RangeInc
}

/// The type lowering records for the temporary an expression produces.
pub open spec fn mir_type(e: AstNode) -> Option<TypeModel>
    decreases e,
{
    match e {
        AstNode::NumberLiteral(_) => Some(TypeModel::Int),
        AstNode::FloatLiteral(_) => Some(TypeModel::Float),
        AstNode::BoolLiteral(_) => Some(TypeModel::Bool),
        AstNode::StringLiteral(_) => Some(TypeModel::Str),
        AstNode::BinaryExpr { left, op, right } => if is_range_op(op) {
            None
        } else {
            let l = mir_type(*left);
            let r = mir_type(*right);
            if op == TokenType::Plus && (l == Some(TypeModel::Str) || r == Some(TypeModel::Str)) {
                Some(TypeModel::Str)
            } else {
                match op_type(l, r) {
                    Some(t) => if op != TokenType::Plus && bool_result(op) {
                        Some(TypeModel::Bool)
                    } else if t == "float"@ {
                        Some(TypeModel::Float)
                    } else {
                        Some(TypeModel::Int)
                    },
                    None => None,
                }
            }
        },
        AstNode::ArrayLiteral(_) => Some(TypeModel::Array(Box::new(TypeModel::Void))),
        AstNode::MapLiteral(entries) => if entries.len() == 0 {
            Some(TypeModel::MapOf(Box::new(TypeModel::Str), Box::new(TypeModel::Int)))
        } else {
            Some(TypeModel::MapOf(Box::new(TypeModel::Void), Box::new(TypeModel::Void)))
        },
        AstNode::ElementAccess { array, .. } => match mir_type(*array) {
            Some(TypeModel::MapOf(_, v)) => Some(*v),
            _ => None,
        },
        _ => None,
    }
}

/// An expression lowers without a type error: its identifiers are not
/// temporaries' names, and no binary operation mixes operand types that
/// lowering rejects (a string with a non-string, a string in anything but
/// `+`, or two known types of different kinds).
pub open spec fn lowerable(e: AstNode) -> bool
    decreases e,
{
    match e {
        AstNode::Identifier(n) => !tmp_like(n@),
        AstNode::BinaryExpr { left, op, right } => lowerable(*left) && lowerable(*right) && (is_range_op(op) || {
            let l = mir_type(*left);
            let r = mir_type(*right);
            if op == TokenType::Plus {
                l == Some(TypeModel::Str) || r == Some(TypeModel::Str) || op_type(l, r) is Some
            } else {
                op_type(l, r) matches Some(t) && t != "string"@
            }
        }),
        AstNode::FunctionCall { func, args } => (*func is Identifier || lowerable(*func)) && forall|i: int|
            0 <= i < args.len() ==> lowerable(#[trigger] args@[i]),
        AstNode::ArrayLiteral(els) => forall|i: int| 0 <= i < els.len() ==> lowerable(#[trigger] els@[i]),
        AstNode::MapLiteral(entries) => forall|i: int|
            0 <= i < entries.len() ==> lowerable((#[trigger] entries@[i]).0) && lowerable(entries@[i].1),
        AstNode::ElementAccess { array, index } => lowerable(*array) && lowerable(*index),
        _ => true,
    }
}

/// How many temporaries lowering an expression takes.
pub open spec fn expr_cost(e: AstNode) -> nat
    decreases e,
{
    match e {
        AstNode::Identifier(_) => 0,
        AstNode::BinaryExpr { left, right, .. } => expr_cost(*left) + expr_cost(*right) + 1,
        AstNode::FunctionCall { func, args } => exprs_cost(args@) + 1 + match *func {
            AstNode::Identifier(_) => 0,
            _ => expr_cost(*func),
        },
        AstNode::ArrayLiteral(els) => exprs_cost(els@) + 1,
        AstNode::MapLiteral(entries) => pairs_cost(entries@) + 1,
        AstNode::ElementAccess { array, index } => expr_cost(*array) + expr_cost(*index) + 1,
        _ => 1,
    }
}

/// The sum of `expr_cost` over a list.
pub open spec fn exprs_cost(v: Seq<AstNode>) -> nat
    decreases v,
{
    if v.len() == 0 {
        0
    } else {
        exprs_cost(v.drop_last()) + expr_cost(v.last())
    }
}

/// The sum of `expr_cost` over the keys and values of a map literal.
pub open spec fn pairs_cost(v: Seq<(AstNode, AstNode)>) -> nat
    decreases v,
{
    if v.len() == 0 {
        0
    } else {
        pairs_cost(v.drop_last()) + expr_cost(v.last().0) + expr_cost(v.last().1)
    }
}

pub proof fn lemma_exprs_cost_prefix(v: Seq<AstNode>, i: int)
    requires
        0 <= i < v.len(),
    ensures
        exprs_cost(v.take(i + 1)) == exprs_cost(v.take(i)) + expr_cost(v[i]),
        exprs_cost(v.take(i + 1)) <= exprs_cost(v),
    decreases v.len(),
{
    assert(v.take(i + 1).drop_last() =~= v.take(i));
    if i + 1 < v.len() {
        lemma_exprs_cost_prefix(v.drop_last(), i);
        assert(v.drop_last().take(i + 1) =~= v.take(i + 1));
        assert(v.drop_last().take(i) =~= v.take(i));
    } else {
        assert(v.take(i + 1) =~= v);
    }
}

pub proof fn lemma_pairs_cost_prefix(v: Seq<(AstNode, AstNode)>, i: int)
    requires
        0 <= i < v.len(),
    ensures
        pairs_cost(v.take(i + 1)) == pairs_cost(v.take(i)) + expr_cost(v[i].0) + expr_cost(v[i].1),
        pairs_cost(v.take(i + 1)) <= pairs_cost(v),
    decreases v.len(),
{
    assert(v.take(i + 1).drop_last() =~= v.take(i));
    if i + 1 < v.len() {
        lemma_pairs_cost_prefix(v.drop_last(), i);
        assert(v.drop_last().take(i + 1) =~= v.take(i + 1));
        assert(v.drop_last().take(i) =~= v.take(i));
    } else {
        assert(v.take(i + 1) =~= v);
    }
}

/// `b2` is `b1` with instructions appended.
pub open spec fn extends(b2: MirBlock, b1: MirBlock) -> bool {
    &&& b2.label == b1.label
    &&& b2.terminator == b1.terminator
    &&& b1.instrs@.len() <= b2.instrs@.len()
    &&& b2.instrs@.subrange(0, b1.instrs@.len() as int) == b1.instrs@
}

pub proof fn lemma_extends_trans(a: MirBlock, b: MirBlock, c: MirBlock)
    requires
        extends(b, a),
        extends(c, b),
    ensures
        extends(c, a),
{
    assert(c.instrs@.subrange(0, a.instrs@.len() as int) =~= b.instrs@.subrange(0, a.instrs@.len() as int));
}

/// The name of the value lowering `e` produces, `c` being the first free
/// temporary: an identifier stands for itself; a call's value is the
/// temporary taken after its arguments; any other value the last
/// temporary it takes.
pub open spec fn result_name(e: AstNode, c: nat) -> Seq<char> {
    match e {
        AstNode::Identifier(n) => n@,
        AstNode::FunctionCall { args, .. } => tmp_name(c + exprs_cost(args@)),
        _ => tmp_name((c + expr_cost(e) - 1) as nat),
    }
}

/// How many instructions lowering an expression appends.
pub open spec fn instr_count(e: AstNode) -> nat
    decreases e, 0nat,
{
    match e {
        AstNode::NumberLiteral(_) => 1,
        AstNode::FloatLiteral(_) => 1,
        AstNode::BoolLiteral(_) => 1,
        AstNode::StringLiteral(_) => 1,
        AstNode::BinaryExpr { left, right, .. } => instr_count(*left) + instr_count(*right) + 1,
        AstNode::FunctionCall { func, args } => {
            instr_counts(args@, args@.len()) + match *func {
                AstNode::Identifier(_) => 0,
                _ => instr_count(*func),
            } + 1
        },
        AstNode::ArrayLiteral(els) => {
            instr_counts(els@, els@.len()) + 1
        },
        AstNode::MapLiteral(entries) => {
            pair_counts(entries@, entries@.len()) + 1
        },
        AstNode::ElementAccess { array, index } => instr_count(*array) + instr_count(*index) + 1,
        _ => 0,
    }
}

/// The instructions lowering the first `n` expressions takes.
pub open spec fn instr_counts(v: Seq<AstNode>, n: nat) -> nat
    decreases v, n,
{
    if n == 0 || n > v.len() {
        0
    } else {
        instr_counts(v, (n - 1) as nat) + instr_count(v[n - 1])
    }
}

/// The instructions lowering the first `n` entries (key, then value) takes.
pub open spec fn pair_counts(v: Seq<(AstNode, AstNode)>, n: nat) -> nat
    decreases v, n,
{
    if n == 0 || n > v.len() {
        0
    } else {
        pair_counts(v, (n - 1) as nat) + instr_count(v[n - 1].0) + instr_count(v[n - 1].1)
    }
}

/// The values of the first `n` expressions, lowered in order from the
/// temporary `c`.
pub open spec fn result_names(v: Seq<AstNode>, n: nat, c: nat) -> Seq<Seq<char>>
    decreases n,
{
    if n == 0 || n > v.len() {
        Seq::empty()
    } else {
        result_names(v, (n - 1) as nat, c).push(result_name(v[n - 1], c + exprs_cost(v.take(n - 1))))
    }
}

/// The key and value names of the first `n` entries, lowered in order from
/// the temporary `c`.
pub open spec fn pair_names(v: Seq<(AstNode, AstNode)>, n: nat, c: nat) -> Seq<(Seq<char>, Seq<char>)>
    decreases n,
{
    if n == 0 || n > v.len() {
        Seq::empty()
    } else {
        let c0 = c + pairs_cost(v.take(n - 1));
        pair_names(v, (n - 1) as nat, c).push(
            (result_name(v[n - 1].0, c0), result_name(v[n - 1].1, c0 + expr_cost(v[n - 1].0))),
        )
    }
}

/// The texts of a list of pairs of strings.
pub open spec fn pair_views(v: Seq<(String, String)>) -> Seq<(Seq<char>, Seq<char>)> {
    Seq::new(v.len(), |i: int| (v[i].0@, v[i].1@))
}

/// The operator tag of a binary operation: its name, `:`, and the kind of
/// its operands (`add:int`, `lt:float`, ...).
pub open spec fn binary_tag(op: TokenType, l: Option<TypeModel>, r: Option<TypeModel>) -> Seq<char> {
    (if op == TokenType::Plus {
        "add"@
    } else {
        op_name(op)
    }) + ":"@ + match op_type(l, r) {
        Some(t) => t,
        None => "int"@,
    }
}

/// The instruction a binary operation ends with: a range, a string
/// concatenation (`+` with a string operand), or a tagged operation.
pub open spec fn binary_instr(i: MirInstr, op: TokenType, d: Seq<char>, left: AstNode, l: Seq<char>, right: AstNode, r: Seq<char>) -> bool {
    if is_range_op(op) {
        i matches MirInstr::RangeCreate { name, start, end, inclusive } && name@ == d && start@ == l && end@ == r
            && inclusive == (op == TokenType::RangeInc)
    } else if op == TokenType::Plus && (mir_type(left) == Some(TypeModel::Str) || mir_type(right) == Some(
        TypeModel::Str,
    )) {
        i matches MirInstr::StringConcat { name, left: a, right: b } && name@ == d && a@ == l && b@ == r
    } else {
        i matches MirInstr::BinaryOp(tag, dd, a, b) && dd@ == d && a@ == l && b@ == r && tag@ == binary_tag(
            op,
            mir_type(left),
            mir_type(right),
        )
    }
}

/// `s` is what lowering `e` from the temporary `c` appends: the
/// instructions of its parts in order, then the one that makes its value.
pub open spec fn emits(e: AstNode, c: nat, s: Seq<MirInstr>) -> bool
    decreases e, 0nat,
{
    match e {
        AstNode::Identifier(_) => s.len() == 0,
        AstNode::NumberLiteral(v) => s.len() == 1 && (s[0] matches MirInstr::ConstInt { name, value } && name@
            == tmp_name(c) && value == v),
        AstNode::FloatLiteral(f) => s.len() == 1 && (s[0] matches MirInstr::ConstFloat { name, value } && name@
            == tmp_name(c) && value@ == f@),
        AstNode::BoolLiteral(b) => s.len() == 1 && (s[0] matches MirInstr::ConstBool { name, value } && name@
            == tmp_name(c) && value == b),
        AstNode::StringLiteral(t) => s.len() == 1 && (s[0] matches MirInstr::ConstString { name, value } && name@
            == tmp_name(c) && value@ == t@),
        AstNode::BinaryExpr { left, op, right } => {
            let nl = instr_count(*left) as int;
            let nr = instr_count(*right) as int;
            let c1 = c + expr_cost(*left);
            &&& s.len() == nl + nr + 1
            &&& emits(*left, c, s.subrange(0, nl))
            &&& emits(*right, c1, s.subrange(nl, nl + nr))
            &&& binary_instr(
                s[nl + nr],
                op,
                tmp_name(c1 + expr_cost(*right)),
                *left,
                result_name(*left, c),
                *right,
                result_name(*right, c1),
            )
        },
        AstNode::FunctionCall { func, args } => {
            let na = instr_counts(args@, args@.len()) as int;
            let ca = c + exprs_cost(args@);
            let nf: int = match *func {
                AstNode::Identifier(_) => 0,
                _ => instr_count(*func) as int,
            };
            &&& s.len() == na + nf + 1
            &&& emits_list(args@, args@.len(), c, s.subrange(0, na))
            &&& match *func {
                AstNode::Identifier(_) => true,
                _ => emits(*func, ca + 1, s.subrange(na, na + nf)),
            }
            &&& s[na + nf] matches MirInstr::Call { dest, func: fname, args: names } && views(dest@) == seq![
                tmp_name(ca),
            ] && fname@ == result_name(*func, ca + 1) && views(names@) == result_names(args@, args@.len(), c)
        },
        AstNode::ArrayLiteral(els) => {
            let na = instr_counts(els@, els@.len()) as int;
            &&& s.len() == na + 1
            &&& emits_list(els@, els@.len(), c, s.subrange(0, na))
            &&& s[na] matches MirInstr::Array { name, elements } && name@ == tmp_name(c + exprs_cost(els@))
                && views(elements@) == result_names(els@, els@.len(), c)
        },
        AstNode::MapLiteral(entries) => {
            let np = pair_counts(entries@, entries@.len()) as int;
            &&& s.len() == np + 1
            &&& emits_pairs(entries@, entries@.len(), c, s.subrange(0, np))
            &&& s[np] matches MirInstr::MapCreate { name, entries: es } && name@ == tmp_name(
                c + pairs_cost(entries@),
            ) && pair_views(es@) == pair_names(entries@, entries@.len(), c)
        },
        AstNode::ElementAccess { array, index } => {
            let na = instr_count(*array) as int;
            let ni = instr_count(*index) as int;
            let c1 = c + expr_cost(*array);
            let d = tmp_name(c1 + expr_cost(*index));
            &&& s.len() == na + ni + 1
            &&& emits(*array, c, s.subrange(0, na))
            &&& emits(*index, c1, s.subrange(na, na + ni))
            &&& if mir_type(*array) matches Some(TypeModel::MapOf(_, _)) {
                s[na + ni] matches MirInstr::MapGet { name, map, key } && name@ == d && map@ == result_name(*array, c)
                    && key@ == result_name(*index, c1)
            } else {
                s[na + ni] matches MirInstr::ArrayGet { name, array: a, index: i } && name@ == d && a@ == result_name(
                    *array,
                    c,
                ) && i@ == result_name(*index, c1)
            }
        },
        _ => s.len() == 0,
    }
}

/// `s` is what lowering the first `n` expressions, in order from the
/// temporary `c`, appends.
pub open spec fn emits_list(v: Seq<AstNode>, n: nat, c: nat, s: Seq<MirInstr>) -> bool
    decreases v, n,
{
    if n == 0 || n > v.len() {
        s.len() == 0
    } else {
        let k = instr_counts(v, (n - 1) as nat) as int;
        &&& s.len() == k + instr_count(v[n - 1])
        &&& emits_list(v, (n - 1) as nat, c, s.subrange(0, k))
        &&& emits(v[n - 1], c + exprs_cost(v.take(n - 1)), s.subrange(k, s.len() as int))
    }
}

/// `s` is what lowering the first `n` entries (each key, then its value),
/// in order from the temporary `c`, appends.
pub open spec fn emits_pairs(v: Seq<(AstNode, AstNode)>, n: nat, c: nat, s: Seq<MirInstr>) -> bool
    decreases v, n,
{
    if n == 0 || n > v.len() {
        s.len() == 0
    } else {
        let k = pair_counts(v, (n - 1) as nat) as int;
        let ck = instr_count(v[n - 1].0) as int;
        let c0 = c + pairs_cost(v.take(n - 1));
        &&& s.len() == k + ck + instr_count(v[n - 1].1)
        &&& emits_pairs(v, (n - 1) as nat, c, s.subrange(0, k))
        &&& emits(v[n - 1].0, c0, s.subrange(k, k + ck))
        &&& emits(v[n - 1].1, c0 + expr_cost(v[n - 1].0), s.subrange(k + ck, s.len() as int))
    }
}

/// The type recorded for a name in the builder's table.
fn get_operand_type(builder: &MirBuilder, operand: &String) -> (r: Option<TypeNode>)
    ensures
        r matches Some(t) ==> tracked_type(builder.mir_symbol_table@, operand@) == Some(t.model()),
        r is None ==> tracked_type(builder.mir_symbol_table@, operand@) is None,
{
    match builder.mir_symbol_table.get(operand) {
        Some(t) => Some(t.duplicate()),
        None => None,
    }
}

/// The operand kind of a binary operation on two named values (see
/// `op_type`); an error when their recorded types do not combine.
pub fn determine_op_type(builder: &MirBuilder, lhs: &str, rhs: &str) -> (r: Result<String, String>)
    ensures
        r is Ok <==> op_type(
            tracked_type(builder.mir_symbol_table@, lhs@),
            tracked_type(builder.mir_symbol_table@, rhs@),
        ) is Some,
        r matches Ok(s) ==> Some(s@) == op_type(
            tracked_type(builder.mir_symbol_table@, lhs@),
            tracked_type(builder.mir_symbol_table@, rhs@),
        ),
{
    let lhs_type = get_operand_type(builder, &String::from_str(lhs));
    let rhs_type = get_operand_type(builder, &String::from_str(rhs));
    match (&lhs_type, &rhs_type) {
        (Some(TypeNode::Float), Some(TypeNode::Float)) => Ok(String::from_str("float")),
        (Some(TypeNode::Float), Some(TypeNode::Int)) => Ok(String::from_str("float")),
        (Some(TypeNode::Int), Some(TypeNode::Float)) => Ok(String::from_str("float")),
        (Some(TypeNode::Int), Some(TypeNode::Int)) => Ok(String::from_str("int")),
        (Some(TypeNode::Bool), Some(TypeNode::Bool)) => Ok(String::from_str("bool")),
        (Some(TypeNode::String), Some(TypeNode::String)) => Ok(String::from_str("string")),
        (Some(TypeNode::String), _) | (_, Some(TypeNode::String)) => Err(
            String::from_str("Cannot perform arithmetic on string types"),
        ),
        (Some(l), Some(r)) => {
            let mut msg = String::from_str("Type mismatch: cannot operate on ");
            msg.append(display_type(l).as_str());
            msg.append(" and ");
            msg.append(display_type(r).as_str());
            Err(msg)
        },
        _ => Ok(String::from_str("int")),
    }
}

} // verus!

verus! {

/// A temporary's name starts with `%`.
pub proof fn lemma_tmp_name_like(k: nat)
    ensures
        tmp_like(tmp_name(k)),
{
    reveal_strlit("%");
}

/// Entries of temporaries numbered below `c` are the same in both tables.
pub open spec fn table_frame(a: Map<Seq<char>, TypeModel>, b: Map<Seq<char>, TypeModel>, c: nat) -> bool {
    forall|k: nat| k < c ==> #[trigger] tracked_type(b, tmp_name(k)) == tracked_type(a, tmp_name(k))
}

impl MirBuilder {
    /// The temporaries' types are recorded only under names of temporaries
    /// already handed out.
    pub open spec fn table_inv(&self) -> bool {
        &&& tmp_keys(self.mir_symbol_table@)
        &&& forall|k: nat| k >= self.tmp_counter ==> !#[trigger] self.mir_symbol_table@.contains_key(tmp_name(k))
    }
}

/// Recording the type of a fresh temporary keeps the table's invariant and
/// the entries of earlier temporaries.
proof fn lemma_record_fresh(tab: Map<Seq<char>, TypeModel>, c: nat, t: TypeModel, start: nat)
    requires
        start <= c,
        tmp_keys(tab),
        forall|k: nat| k >= c ==> !#[trigger] tab.contains_key(tmp_name(k)),
    ensures
        tmp_keys(tab.insert(tmp_name(c), t)),
        forall|k: nat| k >= c + 1 ==> !#[trigger] tab.insert(tmp_name(c), t).contains_key(tmp_name(k)),
        table_frame(tab, tab.insert(tmp_name(c), t), start),
        tracked_type(tab.insert(tmp_name(c), t), tmp_name(c)) == Some(t),
{
    lemma_tmp_name_like(c);
    assert forall|k: nat| k >= c + 1 implies !#[trigger] tab.insert(tmp_name(c), t).contains_key(tmp_name(k)) by {
        lemma_tmp_names_distinct(k, c);
    }
    assert forall|k: nat| k < start implies #[trigger] tracked_type(tab.insert(tmp_name(c), t), tmp_name(k))
        == tracked_type(tab, tmp_name(k)) by {
        lemma_tmp_names_distinct(k, c);
    }
}

/// Records the type of the temporary `tmp`, just handed out.
fn record_type(builder: &mut MirBuilder, tmp: &String, t: TypeNode, Ghost(start): Ghost<nat>)
    requires
        old(builder).tmp_counter >= 1,
        tmp@ == tmp_name((old(builder).tmp_counter - 1) as nat),
        start <= old(builder).tmp_counter - 1,
        tmp_keys(old(builder).mir_symbol_table@),
        forall|k: nat| k >= old(builder).tmp_counter - 1 ==> !#[trigger] old(builder).mir_symbol_table@.contains_key(tmp_name(k)),
    ensures
        final(builder).table_inv(),
        table_frame(old(builder).mir_symbol_table@, final(builder).mir_symbol_table@, start),
        tracked_type(final(builder).mir_symbol_table@, tmp@) == Some(t.model()),
        final(builder).tmp_counter == old(builder).tmp_counter,
        final(builder).block_counter == old(builder).block_counter,
        final(builder).same_structure(old(builder)),
{
    proof {
        lemma_record_fresh(builder.mir_symbol_table@, (builder.tmp_counter - 1) as nat, t.model(), start);
    }
    builder.mir_symbol_table.insert(tmp.clone(), t);
}

} // verus!

verus! {

/// The type tag and result type of a non-`+` binary operation.
fn op_str_of(op: TokenType) -> (r: String)
    ensures
        r@ == op_name(op),
{
    let s = if op == TokenType::Minus {
        "sub"
    } else if op == TokenType::Star {
        "mul"
    } else if op == TokenType::Slash {
        "div"
    } else if op == TokenType::Gt {
        "gt"
    } else if op == TokenType::Lt {
        "lt"
    } else if op == TokenType::GtEq {
        "ge"
    } else if op == TokenType::LtEq {
        "le"
    } else if op == TokenType::EqEq {
        "eq"
    } else if op == TokenType::NotEq {
        "ne"
    } else if op == TokenType::Percent {
        "mod"
    } else if op == TokenType::AndAnd {
        "and"
    } else if op == TokenType::OrOr {
        "or"
    } else {
        "unknown"
    };
    String::from_str(s)
}

/// `op_type` of two optional types.
fn op_type_of(l: &Option<TypeNode>, r: &Option<TypeNode>) -> (res: Option<String>)
    ensures
        res matches Some(s) ==> op_type(crate::parser::ast::opt_model(*l), crate::parser::ast::opt_model(*r)) == Some(
            s@,
        ),
        res is None ==> op_type(crate::parser::ast::opt_model(*l), crate::parser::ast::opt_model(*r)) is None,
{
    match (l, r) {
        (Some(TypeNode::Float), Some(TypeNode::Float)) => Some(String::from_str("float")),
        (Some(TypeNode::Float), Some(TypeNode::Int)) => Some(String::from_str("float")),
        (Some(TypeNode::Int), Some(TypeNode::Float)) => Some(String::from_str("float")),
        (Some(TypeNode::Int), Some(TypeNode::Int)) => Some(String::from_str("int")),
        (Some(TypeNode::Bool), Some(TypeNode::Bool)) => Some(String::from_str("bool")),
        (Some(TypeNode::String), Some(TypeNode::String)) => Some(String::from_str("string")),
        (Some(TypeNode::String), _) | (_, Some(TypeNode::String)) => None,
        (Some(_), Some(_)) => None,
        _ => Some(String::from_str("int")),
    }
}

/// Lowers an expression into instructions appended to `block` and gives
/// the name that holds its value: the identifier itself for an identifier,
/// otherwise a fresh temporary. Literals become constants; `a op b` lowers
/// `a` then `b` and combines them (`+` of strings concatenates; numeric and
/// logical operations are tagged with the operand kind, see `op_type`);
/// ranges become `RangeCreate`; calls lower their arguments in order;
/// collection literals lower their elements; `a[i]` reads a map when `a` is
/// known to be one, an array otherwise. Other nodes get a fresh temporary
/// and no instruction. The type recorded for the result is `mir_type`.
/// Lowering `e` took the builder from `b0` to `b1` and the block from `k0`
/// to `k1`, and produced the value named `r`: one temporary per unit of
/// cost taken, types recorded for them and earlier ones kept, the
/// instructions `emits` describes appended.
pub open spec fn lowered_expr(b0: MirBuilder, b1: MirBuilder, k0: MirBlock, k1: MirBlock, e: AstNode, r: Seq<char>) -> bool {
    &&& b1.tmp_counter == b0.tmp_counter + expr_cost(e)
    &&& b1.block_counter == b0.block_counter
    &&& b1.same_structure(&b0)
    &&& b1.table_inv()
    &&& table_frame(b0.mir_symbol_table@, b1.mir_symbol_table@, b0.tmp_counter as nat)
    &&& extends(k1, k0)
    &&& (e matches AstNode::Identifier(n) ==> r == n@ && k1.instrs@ == k0.instrs@)
    &&& (!(e is Identifier) ==> tmp_like(r))
    &&& tracked_type(b1.mir_symbol_table@, r) == mir_type(e)
    &&& r == result_name(e, b0.tmp_counter as nat)
    &&& emits(e, b0.tmp_counter as nat, k1.instrs@.skip(k0.instrs@.len() as int))
}

/// What lowering appends has the length `instr_count` gives.
pub proof fn lemma_emits_len(e: AstNode, c: nat, s: Seq<MirInstr>)
    requires
        emits(e, c, s),
    ensures
        s.len() == instr_count(e),
{
}

pub proof fn lemma_emits_list_len(v: Seq<AstNode>, n: nat, c: nat, s: Seq<MirInstr>)
    requires
        emits_list(v, n, c, s),
    ensures
        s.len() == instr_counts(v, n),
{
}

pub proof fn lemma_emits_pairs_len(v: Seq<(AstNode, AstNode)>, n: nat, c: nat, s: Seq<MirInstr>)
    requires
        emits_pairs(v, n, c, s),
    ensures
        s.len() == pair_counts(v, n),
{
}

/// Lowers an expression of the form `ElementAccess` (see `build_expression`).
#[verifier::spinoff_prover]
fn build_element_access(builder: &mut MirBuilder, expr: &AstNode, block: &mut MirBlock) -> (r: String)
    requires
        *expr is ElementAccess,
        lowerable(*expr),
        old(builder).tmp_counter + expr_cost(*expr) <= usize::MAX,
        old(builder).table_inv(),
    ensures
        lowered_expr(*old(builder), *final(builder), *old(block), *final(block), *expr, r@),
    decreases expr, 0nat,
{
    let ghost start = builder.tmp_counter as nat;
    proof {
        lemma_tmp_name_like(start);
    }
    match expr {
        AstNode::ElementAccess { array, index } => {
            let ghost b0 = *block;
            let array_tmp = build_expression(builder, array, block);
            let array_type = get_operand_type(builder, &array_tmp);
            let ghost b1 = *block;
            let index_tmp = build_expression(builder, index, block);
            proof {
                lemma_extends_trans(b0, b1, *block);
            }
            let ghost b2 = *block;
            let ghost c2 = builder.tmp_counter as nat;
            assert(!builder.mir_symbol_table@.contains_key(tmp_name(c2)));
            let result_tmp = builder.next_tmp();
            match array_type {
                Some(TypeNode::MapOf(_, value_type)) => {
                    block.instrs.push(
                        MirInstr::MapGet { name: result_tmp.clone(), map: array_tmp, key: index_tmp },
                    );
                    record_type(builder, &result_tmp, *value_type, Ghost(start));
                },
                _ => {
                    block.instrs.push(
                        MirInstr::ArrayGet { name: result_tmp.clone(), array: array_tmp, index: index_tmp },
                    );
                },
            }
            proof {
                assert(block.instrs@.subrange(0, b2.instrs@.len() as int) =~= b2.instrs@);
                lemma_extends_trans(b0, b2, *block);
                lemma_tmp_name_like(c2);
                let s = block.instrs@.skip(b0.instrs@.len() as int);
                lemma_emits_len(**array, start, b1.instrs@.skip(b0.instrs@.len() as int));
                lemma_emits_len(**index, start + expr_cost(**array), b2.instrs@.skip(b1.instrs@.len() as int));
                let na = instr_count(**array) as int;
                let ni = instr_count(**index) as int;
                assert(s.subrange(0, na) =~= b1.instrs@.skip(b0.instrs@.len() as int));
                assert(s.subrange(na, na + ni) =~= b2.instrs@.skip(b1.instrs@.len() as int));
                assert(s[na + ni] == block.instrs@.last());
            }
            assert(tracked_type(builder.mir_symbol_table@, result_tmp@) == mir_type(*expr));
            result_tmp
        },
        _ => {
            proof {
                assert(false);
            }
            String::new()
        },
    }
}

/// Lowers an expression of the form `MapLiteral` (see `build_expression`).
#[verifier::spinoff_prover]
fn build_map(builder: &mut MirBuilder, expr: &AstNode, block: &mut MirBlock) -> (r: String)
    requires
        *expr is MapLiteral,
        lowerable(*expr),
        old(builder).tmp_counter + expr_cost(*expr) <= usize::MAX,
        old(builder).table_inv(),
    ensures
        lowered_expr(*old(builder), *final(builder), *old(block), *final(block), *expr, r@),
    decreases expr, 0nat,
{
    let ghost start = builder.tmp_counter as nat;
    proof {
        lemma_tmp_name_like(start);
    }
    match expr {
        AstNode::MapLiteral(entries) => {
            let ghost b0 = *block;
            let mut map_entries: Vec<(String, String)> = Vec::new();
            let mut i: usize = 0;
            proof {
                assert(entries@.take(0) =~= Seq::<(AstNode, AstNode)>::empty());
                assert(block.instrs@.subrange(0, b0.instrs@.len() as int) =~= b0.instrs@);
            }
            while i < entries.len()
                invariant
                    *expr == AstNode::MapLiteral(*entries),
                    lowerable(*expr),
                    start + expr_cost(*expr) <= usize::MAX,
                    i <= entries.len(),
                    builder.tmp_counter == start + pairs_cost(entries@.take(i as int)),
                    builder.block_counter == old(builder).block_counter,
                    builder.same_structure(old(builder)),
                    builder.table_inv(),
                    table_frame(old(builder).mir_symbol_table@, builder.mir_symbol_table@, start),
                    extends(*block, b0),
                    b0 == *old(block),
                    start == old(builder).tmp_counter,
                    emits_pairs(entries@, i as nat, start, block.instrs@.skip(b0.instrs@.len() as int)),
                    pair_views(map_entries@) == pair_names(entries@, i as nat, start),
                decreases entries.len() - i,
            {
                proof {
                    lemma_pairs_cost_prefix(entries@, i as int);
                }
                assert(decreases_to!(*entries => entries@[i as int]));
                assert(decreases_to!(*expr => expr->MapLiteral_0));
                assert(decreases_to!(entries@[i as int] => entries@[i as int].0));
                assert(decreases_to!(entries@[i as int] => entries@[i as int].1));
                let ghost bb = *block;
                let ghost tab = builder.mir_symbol_table@;
                let ghost ci = builder.tmp_counter as nat;
                let key_tmp = build_expression(builder, &entries[i].0, block);
                let ghost bk = *block;
                let ghost tab2 = builder.mir_symbol_table@;
                let val_tmp = build_expression(builder, &entries[i].1, block);
                proof {
                    let sfull = block.instrs@.skip(b0.instrs@.len() as int);
                    let sprev = bb.instrs@.skip(b0.instrs@.len() as int);
                    lemma_emits_pairs_len(entries@, i as nat, start, sprev);
                    lemma_emits_len(entries@[i as int].0, ci, bk.instrs@.skip(bb.instrs@.len() as int));
                    lemma_emits_len(
                        entries@[i as int].1,
                        ci + expr_cost(entries@[i as int].0),
                        block.instrs@.skip(bk.instrs@.len() as int),
                    );
                    let k = pair_counts(entries@, i as nat) as int;
                    let ck = instr_count(entries@[i as int].0) as int;
                    assert(sfull.subrange(0, k) =~= sprev);
                    assert(sfull.subrange(k, k + ck) =~= bk.instrs@.skip(bb.instrs@.len() as int));
                    assert(sfull.subrange(k + ck, sfull.len() as int) =~= block.instrs@.skip(bk.instrs@.len() as int));
                    assert(emits_pairs(entries@, (i + 1) as nat, start, sfull));
                    lemma_extends_trans(bb, bk, *block);
                    lemma_extends_trans(b0, bb, *block);
                    assert forall|k: nat| k < start implies #[trigger] tracked_type(builder.mir_symbol_table@, tmp_name(k))
                        == tracked_type(old(builder).mir_symbol_table@, tmp_name(k)) by {
                        assert(tracked_type(builder.mir_symbol_table@, tmp_name(k)) == tracked_type(tab2, tmp_name(k)));
                        assert(tracked_type(tab2, tmp_name(k)) == tracked_type(tab, tmp_name(k)));
                    }
                }
                let ghost pairs = pair_views(map_entries@);
                let ghost kn = key_tmp@;
                let ghost vn = val_tmp@;
                map_entries.push((key_tmp, val_tmp));
                assert(pair_views(map_entries@) =~= pairs.push((kn, vn)));
                i += 1;
            }
            proof {
                assert(entries@.take(entries.len() as int) =~= entries@);
            }
            let ghost cd = builder.tmp_counter as nat;
            let tmp = builder.next_tmp();
            let ghost bc = *block;
            let empty = entries.len() == 0;
            block.instrs.push(MirInstr::MapCreate { name: tmp.clone(), entries: map_entries });
            if empty {
                let map_type = TypeNode::MapOf(Box::new(TypeNode::String), Box::new(TypeNode::Int));
                assert(map_type.model() == TypeModel::MapOf(Box::new(TypeModel::Str), Box::new(TypeModel::Int))) by {
                    assert(TypeNode::String.model() == TypeModel::Str);
                    assert(TypeNode::Int.model() == TypeModel::Int);
                }
                record_type(builder, &tmp, map_type, Ghost(start));
            } else {
                let map_type = TypeNode::MapOf(Box::new(TypeNode::Void), Box::new(TypeNode::Void));
                assert(map_type.model() == TypeModel::MapOf(Box::new(TypeModel::Void), Box::new(TypeModel::Void))) by {
                    assert(TypeNode::Void.model() == TypeModel::Void);
                }
                record_type(builder, &tmp, map_type, Ghost(start));
            }
            proof {
                assert(block.instrs@.subrange(0, bc.instrs@.len() as int) =~= bc.instrs@);
                lemma_extends_trans(b0, bc, *block);
                lemma_tmp_name_like(cd);
                let s = block.instrs@.skip(b0.instrs@.len() as int);
                lemma_emits_pairs_len(entries@, entries@.len(), start, bc.instrs@.skip(b0.instrs@.len() as int));
                let np = pair_counts(entries@, entries@.len()) as int;
                assert(s.subrange(0, np) =~= bc.instrs@.skip(b0.instrs@.len() as int));
                assert(s[np] == block.instrs@.last());
            }
            assert(tracked_type(builder.mir_symbol_table@, tmp@) == mir_type(*expr));
            tmp
        },
        _ => {
            proof {
                assert(false);
            }
            String::new()
        },
    }
}

/// Lowers an expression of the form `ArrayLiteral` (see `build_expression`).
#[verifier::spinoff_prover]
fn build_array(builder: &mut MirBuilder, expr: &AstNode, block: &mut MirBlock) -> (r: String)
    requires
        *expr is ArrayLiteral,
        lowerable(*expr),
        old(builder).tmp_counter + expr_cost(*expr) <= usize::MAX,
        old(builder).table_inv(),
    ensures
        lowered_expr(*old(builder), *final(builder), *old(block), *final(block), *expr, r@),
    decreases expr, 0nat,
{
    let ghost start = builder.tmp_counter as nat;
    proof {
        lemma_tmp_name_like(start);
    }
    match expr {
        AstNode::ArrayLiteral(elements) => {
            let ghost b0 = *block;
            let mut tmp_elements: Vec<String> = Vec::new();
            let mut i: usize = 0;
            proof {
                assert(elements@.take(0) =~= Seq::<AstNode>::empty());
                assert(block.instrs@.subrange(0, b0.instrs@.len() as int) =~= b0.instrs@);
            }
            while i < elements.len()
                invariant
                    *expr == AstNode::ArrayLiteral(*elements),
                    lowerable(*expr),
                    start + expr_cost(*expr) <= usize::MAX,
                    i <= elements.len(),
                    builder.tmp_counter == start + exprs_cost(elements@.take(i as int)),
                    builder.block_counter == old(builder).block_counter,
                    builder.same_structure(old(builder)),
                    builder.table_inv(),
                    table_frame(old(builder).mir_symbol_table@, builder.mir_symbol_table@, start),
                    extends(*block, b0),
                    b0 == *old(block),
                    start == old(builder).tmp_counter,
                    emits_list(elements@, i as nat, start, block.instrs@.skip(b0.instrs@.len() as int)),
                    views(tmp_elements@) == result_names(elements@, i as nat, start),
                decreases elements.len() - i,
            {
                proof {
                    lemma_exprs_cost_prefix(elements@, i as int);
                }
                assert(decreases_to!(*elements => elements@[i as int]));
                assert(decreases_to!(*expr => expr->ArrayLiteral_0));
                let ghost bb = *block;
                let ghost tab = builder.mir_symbol_table@;
                let ghost ci = builder.tmp_counter as nat;
                let t = build_expression(builder, &elements[i], block);
                proof {
                    let sfull = block.instrs@.skip(b0.instrs@.len() as int);
                    let sprev = bb.instrs@.skip(b0.instrs@.len() as int);
                    lemma_emits_list_len(elements@, i as nat, start, sprev);
                    lemma_emits_len(elements@[i as int], ci, block.instrs@.skip(bb.instrs@.len() as int));
                    let k = instr_counts(elements@, i as nat) as int;
                    assert(sfull.subrange(0, k) =~= sprev);
                    assert(sfull.subrange(k, sfull.len() as int) =~= block.instrs@.skip(bb.instrs@.len() as int));
                    assert(emits_list(elements@, (i + 1) as nat, start, sfull));
                    lemma_extends_trans(b0, bb, *block);
                    assert forall|k: nat| k < start implies #[trigger] tracked_type(builder.mir_symbol_table@, tmp_name(k))
                        == tracked_type(old(builder).mir_symbol_table@, tmp_name(k)) by {
                        assert(tracked_type(builder.mir_symbol_table@, tmp_name(k)) == tracked_type(tab, tmp_name(k)));
                    }
                }
                let ghost names = views(tmp_elements@);
                tmp_elements.push(t);
                assert(views(tmp_elements@) =~= names.push(result_name(elements@[i as int], ci)));
                i += 1;
            }
            proof {
                assert(elements@.take(elements.len() as int) =~= elements@);
            }
            let ghost cd = builder.tmp_counter as nat;
            let tmp = builder.next_tmp();
            let ghost bc = *block;
            block.instrs.push(MirInstr::Array { name: tmp.clone(), elements: tmp_elements });
            let arr_type = TypeNode::Array(Box::new(TypeNode::Void));
            assert(arr_type.model() == TypeModel::Array(Box::new(TypeModel::Void))) by {
                assert(TypeNode::Void.model() == TypeModel::Void);
            }
            record_type(builder, &tmp, arr_type, Ghost(start));
            proof {
                assert(block.instrs@.subrange(0, bc.instrs@.len() as int) =~= bc.instrs@);
                lemma_extends_trans(b0, bc, *block);
                lemma_tmp_name_like(cd);
                let s = block.instrs@.skip(b0.instrs@.len() as int);
                lemma_emits_list_len(elements@, elements@.len(), start, bc.instrs@.skip(b0.instrs@.len() as int));
                let na = instr_counts(elements@, elements@.len()) as int;
                assert(s.subrange(0, na) =~= bc.instrs@.skip(b0.instrs@.len() as int));
                assert(s[na] == block.instrs@.last());
            }
            assert(tracked_type(builder.mir_symbol_table@, tmp@) == mir_type(*expr));
            tmp
        },
        _ => {
            proof {
                assert(false);
            }
            String::new()
        },
    }
}

/// Lowers an expression of the form `FunctionCall` (see `build_expression`).
#[verifier::spinoff_prover]
fn build_call(builder: &mut MirBuilder, expr: &AstNode, block: &mut MirBlock) -> (r: String)
    requires
        *expr is FunctionCall,
        lowerable(*expr),
        old(builder).tmp_counter + expr_cost(*expr) <= usize::MAX,
        old(builder).table_inv(),
    ensures
        lowered_expr(*old(builder), *final(builder), *old(block), *final(block), *expr, r@),
    decreases expr, 0nat,
{
    let ghost start = builder.tmp_counter as nat;
    proof {
        lemma_tmp_name_like(start);
    }
    match expr {
        AstNode::FunctionCall { func, args } => {
            let ghost b0 = *block;
            let mut arg_tmps: Vec<String> = Vec::new();
            let mut i: usize = 0;
            proof {
                assert(args@.take(0) =~= Seq::<AstNode>::empty());
                assert(block.instrs@.subrange(0, b0.instrs@.len() as int) =~= b0.instrs@);
            }
            while i < args.len()
                invariant
                    *expr == (AstNode::FunctionCall { func: *func, args: *args }),
                    lowerable(*expr),
                    start + expr_cost(*expr) <= usize::MAX,
                    i <= args.len(),
                    builder.tmp_counter == start + exprs_cost(args@.take(i as int)),
                    builder.block_counter == old(builder).block_counter,
                    builder.same_structure(old(builder)),
                    builder.table_inv(),
                    table_frame(old(builder).mir_symbol_table@, builder.mir_symbol_table@, start),
                    extends(*block, b0),
                    b0 == *old(block),
                    start == old(builder).tmp_counter,
                    emits_list(args@, i as nat, start, block.instrs@.skip(b0.instrs@.len() as int)),
                    views(arg_tmps@) == result_names(args@, i as nat, start),
                decreases args.len() - i,
            {
                proof {
                    lemma_exprs_cost_prefix(args@, i as int);
                }
                assert(decreases_to!(*args => args@[i as int]));
                assert(decreases_to!(*expr => expr->FunctionCall_args));
                let ghost bb = *block;
                let ghost tab = builder.mir_symbol_table@;
                let ghost ci = builder.tmp_counter as nat;
                let t = build_expression(builder, &args[i], block);
                proof {
                    let sfull = block.instrs@.skip(b0.instrs@.len() as int);
                    let sprev = bb.instrs@.skip(b0.instrs@.len() as int);
                    lemma_emits_list_len(args@, i as nat, start, sprev);
                    lemma_emits_len(args@[i as int], ci, block.instrs@.skip(bb.instrs@.len() as int));
                    let k = instr_counts(args@, i as nat) as int;
                    assert(sfull.subrange(0, k) =~= sprev);
                    assert(sfull.subrange(k, sfull.len() as int) =~= block.instrs@.skip(bb.instrs@.len() as int));
                    assert(emits_list(args@, (i + 1) as nat, start, sfull));
                    lemma_extends_trans(b0, bb, *block);
                    assert forall|k: nat| k < start implies #[trigger] tracked_type(builder.mir_symbol_table@, tmp_name(k))
                        == tracked_type(old(builder).mir_symbol_table@, tmp_name(k)) by {
                        assert(tracked_type(builder.mir_symbol_table@, tmp_name(k)) == tracked_type(tab, tmp_name(k)));
                    }
                }
                let ghost names = views(arg_tmps@);
                arg_tmps.push(t);
                assert(views(arg_tmps@) =~= names.push(result_name(args@[i as int], ci)));
                i += 1;
            }
            proof {
                assert(args@.take(args.len() as int) =~= args@);
            }
            let ghost cd = builder.tmp_counter as nat;
            assert(!builder.mir_symbol_table@.contains_key(tmp_name(cd)));
            let dest_tmp = builder.next_tmp();
            let ghost bf = *block;
            let func_name = match &**func {
                AstNode::Identifier(name) => name.clone(),
                _ => {
                    let ghost tab = builder.mir_symbol_table@;
                    let f = build_expression(builder, func, block);
                    proof {
                        lemma_extends_trans(b0, bf, *block);
                        assert forall|k: nat| k < start implies #[trigger] tracked_type(builder.mir_symbol_table@, tmp_name(k))
                            == tracked_type(old(builder).mir_symbol_table@, tmp_name(k)) by {
                            assert(tracked_type(builder.mir_symbol_table@, tmp_name(k)) == tracked_type(tab, tmp_name(k)));
                        }
                        assert(tracked_type(builder.mir_symbol_table@, tmp_name(cd)) == tracked_type(tab, tmp_name(cd)));
                    }
                    f
                },
            };
            let ghost bc = *block;
            let mut dest: Vec<String> = Vec::new();
            dest.push(dest_tmp.clone());
            assert(views(dest@) =~= seq![tmp_name(cd)]);
            assert(func_name@ == result_name(**func, cd + 1));
            block.instrs.push(MirInstr::Call { dest, func: func_name, args: arg_tmps });
            proof {
                assert(block.instrs@.subrange(0, bc.instrs@.len() as int) =~= bc.instrs@);
                lemma_extends_trans(b0, bc, *block);
                lemma_tmp_name_like(cd);
                let s = block.instrs@.skip(b0.instrs@.len() as int);
                lemma_emits_list_len(args@, args@.len(), start, bf.instrs@.skip(b0.instrs@.len() as int));
                let na = instr_counts(args@, args@.len()) as int;
                assert(s.subrange(0, na) =~= bf.instrs@.skip(b0.instrs@.len() as int));
                let nf: int = match **func {
                    AstNode::Identifier(_) => 0,
                    _ => instr_count(**func) as int,
                };
                if !(**func is Identifier) {
                    lemma_emits_len(**func, cd + 1, bc.instrs@.skip(bf.instrs@.len() as int));
                    assert(s.subrange(na, na + nf) =~= bc.instrs@.skip(bf.instrs@.len() as int));
                }
                assert(s[na + nf] == block.instrs@.last());
            }
            assert(tracked_type(builder.mir_symbol_table@, dest_tmp@) == mir_type(*expr));
            dest_tmp
        },
        _ => {
            proof {
                assert(false);
            }
            String::new()
        },
    }
}

/// Lowers an expression of the form `BinaryExpr` (see `build_expression`).
#[verifier::spinoff_prover]
fn build_binary(builder: &mut MirBuilder, expr: &AstNode, block: &mut MirBlock) -> (r: String)
    requires
        *expr is BinaryExpr,
        lowerable(*expr),
        old(builder).tmp_counter + expr_cost(*expr) <= usize::MAX,
        old(builder).table_inv(),
    ensures
        lowered_expr(*old(builder), *final(builder), *old(block), *final(block), *expr, r@),
    decreases expr, 0nat,
{
    let ghost start = builder.tmp_counter as nat;
    proof {
        lemma_tmp_name_like(start);
    }
    match expr {
        AstNode::BinaryExpr { left, op, right } => {
            let ghost b0 = *block;
            let lhs_tmp = build_expression(builder, left, block);
            let lhs_type = get_operand_type(builder, &lhs_tmp);
            assert(crate::parser::ast::opt_model(lhs_type) == mir_type(**left));
            let ghost b1 = *block;
            let rhs_tmp = build_expression(builder, right, block);
            let rhs_type = get_operand_type(builder, &rhs_tmp);
            assert(crate::parser::ast::opt_model(rhs_type) == mir_type(**right));
            proof {
                lemma_extends_trans(b0, b1, *block);
            }
            let ghost b2 = *block;
            let ghost c2 = builder.tmp_counter as nat;
            if *op == TokenType::RangeExc || *op == TokenType::RangeInc {
                assert(!builder.mir_symbol_table@.contains_key(tmp_name(c2)));
                let range_tmp = builder.next_tmp();
                block.instrs.push(
                    MirInstr::RangeCreate {
                        name: range_tmp.clone(),
                        start: lhs_tmp,
                        end: rhs_tmp,
                        inclusive: *op == TokenType::RangeInc,
                    },
                );
                proof {
                    assert(block.instrs@.subrange(0, b2.instrs@.len() as int) =~= b2.instrs@);
                    lemma_extends_trans(b0, b2, *block);
                    lemma_tmp_name_like(c2);
                    let s = block.instrs@.skip(b0.instrs@.len() as int);
                    lemma_emits_len(**left, start, b1.instrs@.skip(b0.instrs@.len() as int));
                    lemma_emits_len(**right, start + expr_cost(**left), b2.instrs@.skip(b1.instrs@.len() as int));
                    let nl = instr_count(**left) as int;
                    let nr = instr_count(**right) as int;
                    assert(s.subrange(0, nl) =~= b1.instrs@.skip(b0.instrs@.len() as int));
                    assert(s.subrange(nl, nl + nr) =~= b2.instrs@.skip(b1.instrs@.len() as int));
                    assert(s[nl + nr] == block.instrs@.last());
                }
                assert(tracked_type(builder.mir_symbol_table@, range_tmp@) == mir_type(*expr));
                return range_tmp;
            }
            let dest_tmp = builder.next_tmp();
            let lhs_is_string = matches!(lhs_type, Some(TypeNode::String));
            let rhs_is_string = matches!(rhs_type, Some(TypeNode::String));
            if *op == TokenType::Plus {
                if lhs_is_string || rhs_is_string {
                    block.instrs.push(
                        MirInstr::StringConcat { name: dest_tmp.clone(), left: lhs_tmp, right: rhs_tmp },
                    );
                    record_type(builder, &dest_tmp, TypeNode::String, Ghost(start));
                } else {
                    let op_type = match op_type_of(&lhs_type, &rhs_type) {
                        Some(t) => t,
                        None => {
                            proof {
                                assert(false);
                            }
                            String::from_str("int")
                        },
                    };
                    let mut tag = String::from_str("add");
                    tag.append(":");
                    tag.append(op_type.as_str());
                    let is_float = op_type.eq(&String::from_str("float"));
                    block.instrs.push(MirInstr::BinaryOp(tag, dest_tmp.clone(), lhs_tmp, rhs_tmp));
                    if is_float {
                        record_type(builder, &dest_tmp, TypeNode::Float, Ghost(start));
                    } else {
                        record_type(builder, &dest_tmp, TypeNode::Int, Ghost(start));
                    }
                }
            } else {
                let op_str = op_str_of(*op);
                let op_type = match op_type_of(&lhs_type, &rhs_type) {
                    Some(t) => t,
                    None => {
                        proof {
                            assert(false);
                        }
                        String::from_str("int")
                    },
                };
                let mut tag = op_str.clone();
                tag.append(":");
                tag.append(op_type.as_str());
                let is_float = op_type.eq(&String::from_str("float"));
                block.instrs.push(MirInstr::BinaryOp(tag, dest_tmp.clone(), lhs_tmp, rhs_tmp));
                let is_bool = *op == TokenType::Gt || *op == TokenType::Lt || *op == TokenType::GtEq || *op
                    == TokenType::LtEq || *op == TokenType::EqEq || *op == TokenType::NotEq || *op == TokenType::AndAnd
                    || *op == TokenType::OrOr;
                if is_bool {
                    record_type(builder, &dest_tmp, TypeNode::Bool, Ghost(start));
                } else if is_float {
                    record_type(builder, &dest_tmp, TypeNode::Float, Ghost(start));
                } else {
                    record_type(builder, &dest_tmp, TypeNode::Int, Ghost(start));
                }
            }
            proof {
                assert(block.instrs@.subrange(0, b2.instrs@.len() as int) =~= b2.instrs@);
                lemma_extends_trans(b0, b2, *block);
                lemma_tmp_name_like(c2);
                let s = block.instrs@.skip(b0.instrs@.len() as int);
                lemma_emits_len(**left, start, b1.instrs@.skip(b0.instrs@.len() as int));
                lemma_emits_len(**right, start + expr_cost(**left), b2.instrs@.skip(b1.instrs@.len() as int));
                let nl = instr_count(**left) as int;
                let nr = instr_count(**right) as int;
                assert(s.subrange(0, nl) =~= b1.instrs@.skip(b0.instrs@.len() as int));
                assert(s.subrange(nl, nl + nr) =~= b2.instrs@.skip(b1.instrs@.len() as int));
                assert(s[nl + nr] == block.instrs@.last());
            }
            assert(tracked_type(builder.mir_symbol_table@, dest_tmp@) == mir_type(*expr));
            dest_tmp
        },
        _ => {
            proof {
                assert(false);
            }
            String::new()
        },
    }
}

pub fn build_expression(builder: &mut MirBuilder, expr: &AstNode, block: &mut MirBlock) -> (r: String)
    requires
        lowerable(*expr),
        old(builder).tmp_counter + expr_cost(*expr) <= usize::MAX,
        old(builder).table_inv(),
    ensures
        final(builder).tmp_counter == old(builder).tmp_counter + expr_cost(*expr),
        final(builder).block_counter == old(builder).block_counter,
        final(builder).same_structure(old(builder)),
        final(builder).table_inv(),
        table_frame(old(builder).mir_symbol_table@, final(builder).mir_symbol_table@, old(builder).tmp_counter as nat),
        extends(*final(block), *old(block)),
        expr matches AstNode::Identifier(n) ==> r@ == n@ && final(block).instrs@ == old(block).instrs@,
        !(*expr is Identifier) ==> tmp_like(r@),
        tracked_type(final(builder).mir_symbol_table@, r@) == mir_type(*expr),
        r@ == result_name(*expr, old(builder).tmp_counter as nat),
        emits(*expr, old(builder).tmp_counter as nat, final(block).instrs@.skip(old(block).instrs@.len() as int)),
        *expr matches AstNode::NumberLiteral(v) ==> r@ == tmp_name(old(builder).tmp_counter as nat)
            && final(block).instrs@.len() == old(block).instrs@.len() + 1 && (final(block).instrs@.last() matches MirInstr::ConstInt {
            name,
            value,
        } && name@ == r@ && value == v),
        *expr matches AstNode::BoolLiteral(v) ==> r@ == tmp_name(old(builder).tmp_counter as nat)
            && final(block).instrs@.len() == old(block).instrs@.len() + 1 && (final(block).instrs@.last() matches MirInstr::ConstBool {
            name,
            value,
        } && name@ == r@ && value == v),
        *expr matches AstNode::StringLiteral(v) ==> r@ == tmp_name(old(builder).tmp_counter as nat)
            && final(block).instrs@.len() == old(block).instrs@.len() + 1 && (final(block).instrs@.last() matches MirInstr::ConstString {
            name,
            value,
        } && name@ == r@ && value@ == v@),
    decreases expr, 1nat,
{
    let ghost start = builder.tmp_counter as nat;
    proof {
        lemma_tmp_name_like(start);
    }
    match expr {
        AstNode::NumberLiteral(n) => {
            let tmp = builder.next_tmp();
            block.instrs.push(MirInstr::ConstInt { name: tmp.clone(), value: *n });
            record_type(builder, &tmp, TypeNode::Int, Ghost(start));
            proof {
                assert(block.instrs@.subrange(0, old(block).instrs@.len() as int) =~= old(block).instrs@);
            }
            tmp
        },
        AstNode::FloatLiteral(f) => {
            let tmp = builder.next_tmp();
            block.instrs.push(MirInstr::ConstFloat { name: tmp.clone(), value: f.clone() });
            record_type(builder, &tmp, TypeNode::Float, Ghost(start));
            proof {
                assert(block.instrs@.subrange(0, old(block).instrs@.len() as int) =~= old(block).instrs@);
            }
            tmp
        },
        AstNode::BoolLiteral(b) => {
            let tmp = builder.next_tmp();
            block.instrs.push(MirInstr::ConstBool { name: tmp.clone(), value: *b });
            record_type(builder, &tmp, TypeNode::Bool, Ghost(start));
            proof {
                assert(block.instrs@.subrange(0, old(block).instrs@.len() as int) =~= old(block).instrs@);
            }
            tmp
        },
        AstNode::StringLiteral(s) => {
            let tmp = builder.next_tmp();
            block.instrs.push(MirInstr::ConstString { name: tmp.clone(), value: s.clone() });
            record_type(builder, &tmp, TypeNode::String, Ghost(start));
            proof {
                assert(block.instrs@.subrange(0, old(block).instrs@.len() as int) =~= old(block).instrs@);
            }
            tmp
        },
        AstNode::Identifier(name) => {
            proof {
                assert(block.instrs@.subrange(0, block.instrs@.len() as int) =~= block.instrs@);
                if builder.mir_symbol_table@.contains_key(name@) {
                    assert(tmp_like(name@));
                }
            }
            let r = name.clone();
            assert(tracked_type(builder.mir_symbol_table@, r@) == mir_type(*expr));
            r
        },
        AstNode::BinaryExpr { .. } => build_binary(builder, expr, block),
        AstNode::FunctionCall { .. } => build_call(builder, expr, block),
        AstNode::ArrayLiteral(_) => build_array(builder, expr, block),
        AstNode::MapLiteral(_) => build_map(builder, expr, block),
        AstNode::ElementAccess { .. } => build_element_access(builder, expr, block),
        _ => {
            let ghost c0 = builder.tmp_counter as nat;
            assert(!builder.mir_symbol_table@.contains_key(tmp_name(c0)));
            let t = builder.next_tmp();
            proof {
                assert(block.instrs@.subrange(0, block.instrs@.len() as int) =~= block.instrs@);
            }
            assert(tracked_type(builder.mir_symbol_table@, t@) == mir_type(*expr));
            t
        },
    }
}

/// Lowers a collection literal; nested collections get no special
/// treatment, so this is `build_expression`.
pub fn build_nested_collection(builder: &mut MirBuilder, expr: &AstNode, block: &mut MirBlock) -> (r: String)
    requires
        lowerable(*expr),
        old(builder).tmp_counter + expr_cost(*expr) <= usize::MAX,
        old(builder).table_inv(),
    ensures
        final(builder).tmp_counter == old(builder).tmp_counter + expr_cost(*expr),
        final(builder).block_counter == old(builder).block_counter,
        final(builder).same_structure(old(builder)),
        final(builder).table_inv(),
        extends(*final(block), *old(block)),
        tracked_type(final(builder).mir_symbol_table@, r@) == mir_type(*expr),
{
    build_expression(builder, expr, block)
}

} // verus!
