//! Lowering of statements into the current block (and, for control flow,
//! into new blocks of the function being built).
use crate::lexar::token::TokenType;
use crate::mir::builder::{block_name, decrefs, lemma_decrefs_all, linked, tmp_name, LoopContext, MirBuilder};
use crate::mir::expressions::{
    build_expression, emits, emits_list, expr_cost, exprs_cost, extends, instr_count, instr_counts, lemma_emits_len,
    lemma_emits_list_len, lemma_exprs_cost_prefix, lemma_extends_trans, lowerable, pair_views, result_name,
    result_names,
};
use crate::mir::mir::{MirBlock, MirInstr};
use crate::parser::ast::{AstNode, Pattern, TypeNode};
use crate::text::views;
use vstd::prelude::*;
use vstd::string::StringExecFns;

verus! {

broadcast use vstd::std_specs::vec::group_vec_axioms;

/// An upper bound on the temporaries and on the blocks lowering a statement takes.
pub open spec fn stmt_cost(s: AstNode) -> nat
    decreases s,
{
    match s {
        AstNode::LetDecl { pattern, value, .. } => expr_cost(*value) + pattern_cost(pattern),
        AstNode::Assignment { pattern, value } => expr_cost(*value) + pattern_cost(pattern),
        AstNode::StructDecl { fields, .. } => 1 + fields@.len(),
        AstNode::EnumDecl { variants, .. } => 2 * variants@.len(),
        AstNode::ConditionalStmt { condition, then_block, else_branch } => expr_cost(*condition) + 3 + stmts_cost(
            then_block@,
        ) + match else_branch {
            Some(b) => match *b {
                AstNode::Block(inner) => stmts_cost(inner@),
                _ => stmt_cost(*b),
            },
            None => 0,
        },
        AstNode::Return { values } => exprs_cost(values@),
        AstNode::BinaryExpr { .. } => expr_cost(s),
        AstNode::FunctionCall { .. } => expr_cost(s),
        AstNode::Print { exprs } => exprs_cost(exprs@),
        AstNode::ForLoopStmt { iterable, body, .. } => 16 + stmts_cost(body@) + match iterable {
            Some(it) => expr_cost(*it),
            None => 0,
        },
        _ => 0,
    }
}

/// Two temporaries for each element of a tuple pattern.
pub open spec fn pattern_cost(p: Pattern) -> nat {
    match p {
        Pattern::Tuple(ps) => 2 * ps@.len(),
        _ => 0,
    }
}

/// The sum of `stmt_cost` over a list.
pub open spec fn stmts_cost(v: Seq<AstNode>) -> nat
    decreases v,
{
    if v.len() == 0 {
        0
    } else {
        stmts_cost(v.drop_last()) + stmt_cost(v.last())
    }
}

pub proof fn lemma_stmts_cost_prefix(v: Seq<AstNode>, i: int)
    requires
        0 <= i < v.len(),
    ensures
        stmts_cost(v.take(i + 1)) == stmts_cost(v.take(i)) + stmt_cost(v[i]),
        stmts_cost(v.take(i + 1)) <= stmts_cost(v),
    decreases v.len(),
{
    assert(v.take(i + 1).drop_last() =~= v.take(i));
    if i + 1 < v.len() {
        lemma_stmts_cost_prefix(v.drop_last(), i);
        assert(v.drop_last().take(i + 1) =~= v.take(i + 1));
        assert(v.drop_last().take(i) =~= v.take(i));
    } else {
        assert(v.take(i + 1) =~= v);
    }
}

/// What lowering a loop with this iterable and pattern lowers of the iterable.
pub open spec fn iterable_lowered(it: AstNode, pattern: Pattern) -> bool {
    match it {
        AstNode::BinaryExpr { op, .. } => crate::mir::expressions::is_range_op(op),
        AstNode::MapLiteral(_) => pattern matches Pattern::Tuple(ps) && ps.len() == 2,
        AstNode::ArrayLiteral(_) => true,
        AstNode::Identifier(_) => true,
        _ => false,
    }
}

/// A statement lowers without failing: its expressions lower without a
/// type error, and `break` and `continue` stand inside a loop (`in_loop`
/// says whether the statement itself does).
pub open spec fn stmt_lowerable(s: AstNode, in_loop: bool) -> bool
    decreases s,
{
    match s {
        AstNode::LetDecl { value, .. } => lowerable(*value),
        AstNode::Assignment { value, .. } => lowerable(*value),
        AstNode::ConditionalStmt { condition, then_block, else_branch } => lowerable(*condition) && stmts_lowerable(
            then_block@,
            in_loop,
        ) && match else_branch {
            Some(b) => match *b {
                AstNode::Block(inner) => stmts_lowerable(inner@, in_loop),
                _ => stmt_lowerable(*b, in_loop),
            },
            None => true,
        },
        AstNode::Return { values } => forall|i: int| 0 <= i < values.len() ==> lowerable(#[trigger] values@[i]),
        AstNode::BinaryExpr { .. } => lowerable(s),
        AstNode::FunctionCall { .. } => lowerable(s),
        AstNode::Print { exprs } => forall|i: int| 0 <= i < exprs.len() ==> lowerable(#[trigger] exprs@[i]),
        AstNode::Break => in_loop,
        AstNode::Continue => in_loop,
        AstNode::ForLoopStmt { pattern, iterable, body } => stmts_lowerable(body@, true) && match iterable {
            Some(it) => iterable_lowered(*it, pattern) ==> lowerable(*it),
            None => true,
        },
        _ => true,
    }
}

/// `stmt_lowerable` of every statement of a list.
pub open spec fn stmts_lowerable(v: Seq<AstNode>, in_loop: bool) -> bool
    decreases v,
{
    forall|i: int| 0 <= i < v.len() ==> stmt_lowerable(#[trigger] v[i], in_loop)
}

/// Statements that only append instructions to the current block.
pub open spec fn straight_line(s: AstNode) -> bool {
    !(s is ConditionalStmt || s is ForLoopStmt || s is Return || s is Break || s is Continue)
}

/// An empty block with the given label.
fn empty_block(label: String) -> (b: MirBlock)
    ensures
        b.label == label,
        b.instrs@.len() == 0,
        b.terminator is None,
{
    MirBlock { label, instrs: Vec::new(), terminator: None }
}

/// `name` followed by `suffix`.
fn suffixed(name: &String, suffix: &str) -> (r: String)
    ensures
        r@ == name@ + suffix@,
{
    let mut s = name.clone();
    s.append(suffix);
    s
}

/// Lowering ended in the block it started in (`b0`), or in a fresh block
/// numbered from `k0` up to (not including) `k1`.
pub open spec fn ends_in(b: MirBlock, b0: MirBlock, k0: nat, k1: nat) -> bool {
    b.label == b0.label || exists|j: nat| k0 <= j < k1 && b.label@ == #[trigger] block_name(j)
}

/// A statement that does not end the current block to start a fresh one:
/// anything but `if` and `for`.
pub open spec fn flat(s: AstNode) -> bool {
    !(s is ConditionalStmt || s is ForLoopStmt)
}

/// No statement of the list is an `if` or a `for`.
pub open spec fn all_flat(v: Seq<AstNode>) -> bool {
    forall|i: int| 0 <= i < v.len() ==> flat(#[trigger] v[i])
}

/// Every statement of the list is straight-line (see `straight_line`).
pub open spec fn all_straight(v: Seq<AstNode>) -> bool {
    forall|i: int| 0 <= i < v.len() ==> straight_line(#[trigger] v[i])
}

/// `s` is what lowering the statements `v` in order, from the temporary
/// `c` on, appends to the current block: one after the other, the part each
/// statement appends (see `stmt_emits`), each from some temporary no
/// earlier than `c`.
pub open spec fn stmts_emit(v: Seq<AstNode>, c: nat, s: Seq<MirInstr>) -> bool
    decreases v.len(),
{
    if v.len() == 0 {
        s.len() == 0
    } else {
        exists|k: int, c2: nat|
            0 <= k <= s.len() && c <= c2 && stmts_emit(v.drop_last(), c, s.take(k)) && #[trigger] stmt_emits(
                v.last(),
                c2,
                s.skip(k),
            )
    }
}

/// Lowers the statements of a list in order into `block` (see `build_statement`).
pub fn build_stmts(builder: &mut MirBuilder, stmts: &Vec<AstNode>, block: &mut MirBlock)
    requires
        stmts_lowerable(stmts@, old(builder).loop_stack@.len() > 0),
        old(builder).room_for(stmts_cost(stmts@)),
    ensures
        final(builder).steps_within(old(builder), stmts_cost(stmts@)),
        ends_in(*final(block), *old(block), old(builder).block_counter as nat, final(builder).block_counter as nat),
        all_flat(stmts@) ==> final(block).label == old(block).label && extends_instrs(*final(block), *old(block))
            && stmts_emit(stmts@, old(builder).tmp_counter as nat, final(block).instrs@.skip(old(block).instrs@.len() as int)),
        all_straight(stmts@) ==> final(block).terminator == old(block).terminator,
        (stmts@.len() > 0 && stmts@.last() is Continue) ==> (final(block).terminator matches Some(
            MirInstr::Jump { target },
        ) && target@ == old(builder).loop_stack@.last().continue_target@),
    decreases stmts, 2nat,
{
    let ghost start = *builder;
    let mut i: usize = 0;
    proof {
        assert(stmts@.take(0) =~= Seq::<AstNode>::empty());
        assert(block.instrs@.skip(block.instrs@.len() as int) =~= Seq::<MirInstr>::empty());
        assert(block.instrs@.subrange(0, block.instrs@.len() as int) =~= block.instrs@);
    }
    while i < stmts.len()
        invariant
            start == *old(builder),
            stmts_lowerable(stmts@, start.loop_stack@.len() > 0),
            start.room_for(stmts_cost(stmts@)),
            i <= stmts.len(),
            builder.steps_within(&start, stmts_cost(stmts@.take(i as int))),
            ends_in(*block, *old(block), start.block_counter as nat, builder.block_counter as nat),
            all_flat(stmts@) ==> block.label == old(block).label && extends_instrs(*block, *old(block))
                && stmts_emit(stmts@.take(i as int), start.tmp_counter as nat, block.instrs@.skip(old(block).instrs@.len() as int)),
            all_straight(stmts@) ==> block.terminator == old(block).terminator,
            (i == stmts.len() && stmts@.len() > 0 && stmts@.last() is Continue) ==> (block.terminator matches Some(
                MirInstr::Jump { target },
            ) && target@ == start.loop_stack@.last().continue_target@),
        decreases stmts.len() - i,
    {
        proof {
            lemma_stmts_cost_prefix(stmts@, i as int);
        }
        assert(decreases_to!(*stmts => stmts@[i as int]));
        let ghost prev = *block;
        let ghost ci = builder.tmp_counter as nat;
        build_statement(builder, &stmts[i], block);
        proof {
            if all_straight(stmts@) {
                assert(straight_line(stmts@[i as int]));
            }
            if all_flat(stmts@) {
                assert(flat(stmts@[i as int]));
                let n0 = old(block).instrs@.len() as int;
                let s = block.instrs@.skip(n0);
                let k = prev.instrs@.len() - n0;
                assert(s.take(k) =~= prev.instrs@.skip(n0));
                assert(s.skip(k) =~= block.instrs@.skip(prev.instrs@.len() as int));
                assert(block.instrs@.subrange(0, n0) =~= old(block).instrs@);
                let v = stmts@.take(i + 1);
                assert(v.drop_last() =~= stmts@.take(i as int));
                assert(v.last() == stmts@[i as int]);
                assert(start.tmp_counter <= ci);
                assert(stmt_emits(v.last(), ci, s.skip(k)));
                assert(stmts_emit(v, start.tmp_counter as nat, s));
            }
        }
        i += 1;
    }
    proof {
        assert(stmts@.take(stmts.len() as int) =~= stmts@);
    }
}

/// How many of the first `n` elements of a tuple pattern are names.
pub open spec fn named_count(ps: Seq<Pattern>, n: nat) -> nat
    decreases n,
{
    if n == 0 || n > ps.len() {
        0
    } else {
        named_count(ps, (n - 1) as nat) + if ps[n - 1] is Identifier {
            1nat
        } else {
            0nat
        }
    }
}

/// `s` is what binding `value` to the first `n` elements of a tuple
/// pattern appends, temporaries from `c`: for each named element, an
/// extraction of that element into a fresh temporary, then an assignment of
/// that temporary to the name.
pub open spec fn binds_tuple(ps: Seq<Pattern>, n: nat, value: Seq<char>, mutable: bool, c: nat, s: Seq<MirInstr>) -> bool
    decreases n,
{
    if n == 0 || n > ps.len() {
        s.len() == 0
    } else {
        let j = named_count(ps, (n - 1) as nat);
        let k = 2 * j;
        match ps[n - 1] {
            Pattern::Identifier(name) => {
                &&& s.len() == k + 2
                &&& binds_tuple(ps, (n - 1) as nat, value, mutable, c, s.subrange(0, k as int))
                &&& s[k as int] matches MirInstr::TupleExtract { name: t, source, index } && t@ == tmp_name(c + j)
                    && source@ == value && index == n - 1
                &&& s[k + 1int] matches MirInstr::Assign { name: x, value: v, mutable: m } && x@ == name@ && v@
                    == tmp_name(c + j) && m == mutable
            },
            _ => s.len() == k && binds_tuple(ps, (n - 1) as nat, value, mutable, c, s),
        }
    }
}

/// The temporaries binding a value to a pattern takes: one per named
/// element of a tuple.
pub open spec fn bind_temps(p: Pattern) -> nat {
    match p {
        Pattern::Tuple(ps) => named_count(ps@, ps@.len()),
        _ => 0,
    }
}

/// `s` is what binding `value` to the pattern `p` appends, temporaries
/// from `c`: an assignment to a name, nothing for `_`, and for a tuple
/// what `binds_tuple` says.
pub open spec fn binds(p: Pattern, value: Seq<char>, mutable: bool, c: nat, s: Seq<MirInstr>) -> bool {
    match p {
        Pattern::Identifier(name) => s.len() == 1 && (s[0] matches MirInstr::Assign { name: x, value: v, mutable: m }
            && x@ == name@ && v@ == value && m == mutable),
        Pattern::Wildcard => s.len() == 0,
        Pattern::Tuple(ps) => binds_tuple(ps@, ps@.len(), value, mutable, c, s),
    }
}

/// What binding a tuple appends has two instructions per named element.
proof fn lemma_binds_tuple_len(ps: Seq<Pattern>, n: nat, value: Seq<char>, mutable: bool, c: nat, s: Seq<MirInstr>)
    requires
        binds_tuple(ps, n, value, mutable, c, s),
    ensures
        s.len() == 2 * named_count(ps, n),
{
}

/// Lowers a `let` or assignment target binding to the value `value_tmp`: a
/// name is assigned; each name of a tuple pattern is assigned the element
/// just extracted into a fresh temporary.
fn bind_target(builder: &mut MirBuilder, pattern: &Pattern, value_tmp: &String, mutable: bool, block: &mut MirBlock)
    requires
        old(builder).room_for(pattern_cost(*pattern)),
    ensures
        final(builder).steps_within(old(builder), pattern_cost(*pattern)),
        final(builder).program == old(builder).program,
        extends(*final(block), *old(block)),
        final(builder).tmp_counter == old(builder).tmp_counter + bind_temps(*pattern),
        binds(*pattern, value_tmp@, mutable, old(builder).tmp_counter as nat, final(block).instrs@.skip(
            old(block).instrs@.len() as int,
        )),
{
    match pattern {
        Pattern::Identifier(name) => {
            block.instrs.push(MirInstr::Assign { name: name.clone(), value: value_tmp.clone(), mutable });
            proof {
                assert(block.instrs@.subrange(0, old(block).instrs@.len() as int) =~= old(block).instrs@);
            }
        },
        Pattern::Tuple(patterns) => {
            let mut i: usize = 0;
            proof {
                assert(block.instrs@.subrange(0, old(block).instrs@.len() as int) =~= old(block).instrs@);
            }
            while i < patterns.len()
                invariant
                    *pattern == Pattern::Tuple(*patterns),
                    old(builder).room_for(pattern_cost(*pattern)),
                    i <= patterns.len(),
                    builder.steps_within(old(builder), i as nat),
                    builder.program == old(builder).program,
                    builder.tmp_counter == old(builder).tmp_counter + named_count(patterns@, i as nat),
                    named_count(patterns@, i as nat) <= i,
                    builder.block_counter == old(builder).block_counter,
                    extends(*block, *old(block)),
                    binds_tuple(patterns@, i as nat, value_tmp@, mutable, old(builder).tmp_counter as nat, block.instrs@.skip(
                        old(block).instrs@.len() as int,
                    )),
                decreases patterns.len() - i,
            {
                let ghost b0 = *block;
                let ghost sprev = block.instrs@.skip(old(block).instrs@.len() as int);
                if let Pattern::Identifier(name) = &patterns[i] {
                    let t1 = builder.next_tmp();
                    block.instrs.push(MirInstr::TupleExtract { name: t1.clone(), source: value_tmp.clone(), index: i });
                    block.instrs.push(MirInstr::Assign { name: name.clone(), value: t1, mutable });
                    proof {
                        assert(block.instrs@.subrange(0, b0.instrs@.len() as int) =~= b0.instrs@);
                        lemma_extends_trans(*old(block), b0, *block);
                        lemma_binds_tuple_len(patterns@, i as nat, value_tmp@, mutable, old(builder).tmp_counter as nat, sprev);
                        let sfull = block.instrs@.skip(old(block).instrs@.len() as int);
                        let k = 2 * named_count(patterns@, i as nat);
                        assert(sfull.subrange(0, k as int) =~= sprev);
                        assert(binds_tuple(patterns@, (i + 1) as nat, value_tmp@, mutable, old(builder).tmp_counter as nat, sfull));
                    }
                } else {
                    assert(binds_tuple(patterns@, (i + 1) as nat, value_tmp@, mutable, old(builder).tmp_counter as nat, sprev)) by {
                        lemma_binds_tuple_len(patterns@, i as nat, value_tmp@, mutable, old(builder).tmp_counter as nat, sprev);
                    }
                }
                i += 1;
            }
        },
        Pattern::Wildcard => {
            proof {
                assert(block.instrs@.subrange(0, block.instrs@.len() as int) =~= block.instrs@);
            }
        },
    }
}

} // verus!

verus! {

/// The instructions of `b2` begin with those of `b1`.
pub open spec fn extends_instrs(b2: MirBlock, b1: MirBlock) -> bool {
    &&& b1.instrs@.len() <= b2.instrs@.len()
    &&& b2.instrs@.subrange(0, b1.instrs@.len() as int) == b1.instrs@
}

/// The temporaries the first `n` variants of an enum declaration take: one
/// for the variant, and one more for a value it carries.
pub open spec fn enum_temps(vs: Seq<(String, Option<TypeNode>)>, n: nat) -> nat
    decreases n,
{
    if n == 0 || n > vs.len() {
        0
    } else {
        enum_temps(vs, (n - 1) as nat) + if vs[n - 1].1 is Some {
            2nat
        } else {
            1nat
        }
    }
}

/// `s` is what lowering the statement `st` from the temporary `c` appends
/// to the current block (for `return`, before its terminator): a `let` or
/// an assignment lowers its value and binds it; a struct declaration
/// becomes one placeholder instance and an enum declaration one instance
/// per variant; `print` lowers its values and prints them; `return` lowers
/// its values; an expression statement lowers the expression; other
/// statements append nothing here.
pub open spec fn stmt_emits(st: AstNode, c: nat, s: Seq<MirInstr>) -> bool {
    match st {
        AstNode::LetDecl { pattern, value, mutable, .. } => {
            let n = instr_count(*value) as int;
            &&& n <= s.len()
            &&& emits(*value, c, s.subrange(0, n))
            &&& binds(pattern, result_name(*value, c), mutable, c + expr_cost(*value), s.subrange(n, s.len() as int))
        },
        AstNode::Assignment { pattern, value } => {
            let n = instr_count(*value) as int;
            &&& n <= s.len()
            &&& emits(*value, c, s.subrange(0, n))
            &&& binds(pattern, result_name(*value, c), true, c + expr_cost(*value), s.subrange(n, s.len() as int))
        },
        AstNode::StructDecl { name, fields } => s.len() == 1 && (s[0] matches MirInstr::StructInit {
            name: t,
            struct_name,
            fields: fs,
        } && t@ == tmp_name(c) && struct_name@ == name@ && pair_views(fs@) == Seq::new(
            fields@.len(),
            |i: int| (fields@[i].0@, tmp_name((c + 1 + i) as nat)),
        )),
        AstNode::EnumDecl { name, variants } => s.len() == variants@.len() && forall|i: int|
            0 <= i < s.len() ==> (#[trigger] s[i] matches MirInstr::EnumInit { name: t, enum_name, variant, value }
                && t@ == tmp_name(c + enum_temps(variants@, i as nat)) && enum_name@ == name@ && variant@
                == variants@[i].0@ && (value is Some <==> variants@[i].1 is Some) && (value matches Some(v) ==> v@
                == tmp_name(c + enum_temps(variants@, i as nat) + 1))),
        AstNode::Return { values } => emits_list(values@, values@.len(), c, s),
        AstNode::BinaryExpr { .. } => emits(st, c, s),
        AstNode::FunctionCall { .. } => emits(st, c, s),
        AstNode::Print { exprs } => {
            let n = instr_counts(exprs@, exprs@.len()) as int;
            &&& s.len() == n + 1
            &&& emits_list(exprs@, exprs@.len(), c, s.subrange(0, n))
            &&& s[n] matches MirInstr::Print { values } && views(values@) == result_names(exprs@, exprs@.len(), c)
        },
        _ => s.len() == 0,
    }
}

/// Lowers one statement. `let` and assignments compute their value and
/// assign it (tuple patterns element by element); declarations of structs
/// and enums become placeholder instances; `print` and expression
/// statements compute their values; `return`, `break` and `continue` set
/// the block's terminator (a return of the values, or a jump to the
/// innermost loop's exit or continue target); `if` and `for` end the
/// current block and continue in a fresh one (see `build_conditional` and
/// `build_for`). Other statements lower to nothing.
#[verifier::rlimit(30)]
pub fn build_statement(builder: &mut MirBuilder, stmt: &AstNode, block: &mut MirBlock)
    requires
        stmt_lowerable(*stmt, old(builder).loop_stack@.len() > 0),
        old(builder).room_for(stmt_cost(*stmt)),
    ensures
        final(builder).steps_within(old(builder), stmt_cost(*stmt)),
        straight_line(*stmt) ==> extends(*final(block), *old(block)) && final(builder).program == old(builder).program,
        (*stmt is Break || *stmt is Continue) ==> final(builder).program == old(builder).program
            && final(builder).tmp_counter == old(builder).tmp_counter
            && final(builder).block_counter == old(builder).block_counter
            && final(block).instrs == old(block).instrs,
        *stmt matches AstNode::Return { values } ==> final(block).label == old(block).label && (final(block).terminator matches Some(MirInstr::Return { values: vs }) && vs.len() == values.len() && views(vs@) == result_names(values@, values@.len(), old(builder).tmp_counter as nat)),
        !(*stmt is ConditionalStmt || *stmt is ForLoopStmt) ==> extends_instrs(*final(block), *old(block)) && stmt_emits(
            *stmt,
            old(builder).tmp_counter as nat,
            final(block).instrs@.skip(old(block).instrs@.len() as int),
        ),
        *stmt is Break ==> final(block).label == old(block).label && (final(block).terminator matches Some(
            MirInstr::Jump { target },
        ) && target@ == old(builder).loop_stack@.last().break_target@),
        *stmt is Continue ==> final(block).label == old(block).label && (final(block).terminator matches Some(
            MirInstr::Jump { target },
        ) && target@ == old(builder).loop_stack@.last().continue_target@),
        (*stmt is ConditionalStmt || (*stmt matches AstNode::ForLoopStmt { iterable, .. } && iterable is Some)) ==> (final(block).instrs@.len() == 0 && final(block).terminator is None && exists|k: nat|
            old(builder).block_counter <= k < final(builder).block_counter && final(block).label@ == block_name(k)),
        ends_in(*final(block), *old(block), old(builder).block_counter as nat, final(builder).block_counter as nat),
        *stmt is ConditionalStmt ==> final(block).label@ == block_name((old(builder).block_counter + 2) as nat),
        old(builder).program.functions@.len() > 0 ==> (*stmt matches AstNode::ConditionalStmt {
            condition,
            then_block,
            else_branch,
        } ==> if_blocks(
            final(builder).program.functions@.last().blocks@,
            *old(block),
            *condition,
            then_block@,
            else_branch is Some,
            old(builder).tmp_counter as nat,
            old(builder).block_counter as nat,
        )),
        old(builder).program.functions@.len() > 0 ==> (*stmt matches AstNode::ForLoopStmt { pattern, iterable, body }
            ==> (iterable matches Some(it) ==> iterable_lowered(*it, pattern) ==> for_blocks(
            final(builder).program.functions@.last().blocks@,
            *old(block),
            old(builder).block_counter as nat,
            if old(builder).loop_stack@.len() > 0 {
                old(builder).loop_stack@.last().continue_target@
            } else {
                final(block).label@
            },
            loop_test(*it, pattern, body@),
        ))),
        (*stmt matches AstNode::ForLoopStmt { iterable, .. } && iterable is None) ==> final(block).instrs
            == old(block).instrs && final(block).terminator is Some && (old(block).terminator is None ==> (
        final(block).terminator matches Some(MirInstr::Jump { target }) && target@ == block_name(
            old(builder).block_counter as nat,
        ))) && (old(builder).program.functions@.len() > 0 ==> endless_blocks(
            final(builder).program.functions@.last().blocks@,
            old(builder).block_counter as nat,
        )),
    decreases stmt, 1nat,
{
    match stmt {
        AstNode::ConditionalStmt { .. } => {
            build_conditional(builder, stmt, block);
        },
        AstNode::ForLoopStmt { .. } => {
            build_for(builder, stmt, block);
        },
        AstNode::LetDecl { pattern, value, mutable, .. } => {
            let ghost b0 = *block;
            let value_tmp = build_expression(builder, value, block);
            let ghost b1 = *block;
            bind_target(builder, pattern, &value_tmp, *mutable, block);
            proof {
                lemma_extends_trans(b0, b1, *block);
                let c0 = old(builder).tmp_counter as nat;
                let sfull = block.instrs@.skip(b0.instrs@.len() as int);
                lemma_emits_len(**value, c0, b1.instrs@.skip(b0.instrs@.len() as int));
                let n = instr_count(**value) as int;
                assert(sfull.subrange(0, n) =~= b1.instrs@.skip(b0.instrs@.len() as int));
                assert(sfull.subrange(n, sfull.len() as int) =~= block.instrs@.skip(b1.instrs@.len() as int));
            }
        },
        AstNode::Assignment { pattern, value } => {
            let ghost b0 = *block;
            let value_tmp = build_expression(builder, value, block);
            let ghost b1 = *block;
            bind_target(builder, pattern, &value_tmp, true, block);
            proof {
                lemma_extends_trans(b0, b1, *block);
                let c0 = old(builder).tmp_counter as nat;
                let sfull = block.instrs@.skip(b0.instrs@.len() as int);
                lemma_emits_len(**value, c0, b1.instrs@.skip(b0.instrs@.len() as int));
                let n = instr_count(**value) as int;
                assert(sfull.subrange(0, n) =~= b1.instrs@.skip(b0.instrs@.len() as int));
                assert(sfull.subrange(n, sfull.len() as int) =~= block.instrs@.skip(b1.instrs@.len() as int));
            }
        },
        AstNode::StructDecl { name, fields } => {
            let tmp = builder.next_tmp();
            let mut field_vals: Vec<(String, String)> = Vec::new();
            let mut i: usize = 0;
            while i < fields.len()
                invariant
                    *stmt == (AstNode::StructDecl { name: *name, fields: *fields }),
                    old(builder).room_for(stmt_cost(*stmt)),
                    i <= fields.len(),
                    builder.steps_within(old(builder), 1 + i as nat),
                    builder.tmp_counter == old(builder).tmp_counter + 1 + i,
                    builder.block_counter == old(builder).block_counter,
                    builder.program == old(builder).program,
                    pair_views(field_vals@) == Seq::new(
                        i as nat,
                        |j: int| (fields@[j].0@, tmp_name((old(builder).tmp_counter + 1 + j) as nat)),
                    ),
                decreases fields.len() - i,
            {
                let val_tmp = builder.next_tmp();
                let ghost prev = pair_views(field_vals@);
                let key = fields[i].0.clone();
                assert(key@ == fields@[i as int].0@);
                let ghost entry = (key@, val_tmp@);
                field_vals.push((key, val_tmp));
                assert(pair_views(field_vals@) =~= prev.push(entry));
                assert(pair_views(field_vals@) =~= Seq::new(
                    (i + 1) as nat,
                    |j: int| (fields@[j].0@, tmp_name((old(builder).tmp_counter + 1 + j) as nat)),
                ));
                i += 1;
            }
            block.instrs.push(MirInstr::StructInit { name: tmp, struct_name: name.clone(), fields: field_vals });
            proof {
                assert(block.instrs@.subrange(0, old(block).instrs@.len() as int) =~= old(block).instrs@);
                assert(block.instrs@.skip(old(block).instrs@.len() as int) =~= seq![block.instrs@.last()]);
            }
        },
        AstNode::EnumDecl { name, variants } => {
            let mut i: usize = 0;
            proof {
                assert(block.instrs@.subrange(0, old(block).instrs@.len() as int) =~= old(block).instrs@);
            }
            while i < variants.len()
                invariant
                    *stmt == (AstNode::EnumDecl { name: *name, variants: *variants }),
                    old(builder).room_for(stmt_cost(*stmt)),
                    i <= variants.len(),
                    builder.steps_within(old(builder), 2 * i as nat),
                    builder.block_counter == old(builder).block_counter,
                    builder.program == old(builder).program,
                    extends(*block, *old(block)),
                    builder.tmp_counter == old(builder).tmp_counter + enum_temps(variants@, i as nat),
                    enum_temps(variants@, i as nat) <= 2 * i,
                    block.instrs@.len() == old(block).instrs@.len() + i,
                    forall|j: int|
                        0 <= j < i ==> (#[trigger] block.instrs@[old(block).instrs@.len() + j] matches MirInstr::EnumInit {
                            name: t,
                            enum_name,
                            variant,
                            value,
                        } && t@ == tmp_name(old(builder).tmp_counter as nat + enum_temps(variants@, j as nat)) && enum_name@
                            == name@ && variant@ == variants@[j].0@ && (value is Some <==> variants@[j].1 is Some) && (
                        value matches Some(v) ==> v@ == tmp_name(
                            old(builder).tmp_counter as nat + enum_temps(variants@, j as nat) + 1,
                        ))),
                decreases variants.len() - i,
            {
                let tmp = builder.next_tmp();
                let value_tmp = match &variants[i].1 {
                    Some(_) => Some(builder.next_tmp()),
                    None => None,
                };
                let ghost b0 = *block;
                block.instrs.push(
                    MirInstr::EnumInit { name: tmp, enum_name: name.clone(), variant: variants[i].0.clone(), value: value_tmp },
                );
                proof {
                    assert(block.instrs@.subrange(0, b0.instrs@.len() as int) =~= b0.instrs@);
                    lemma_extends_trans(*old(block), b0, *block);
                    assert forall|j: int| 0 <= j < i implies #[trigger] block.instrs@[old(block).instrs@.len() + j]
                        == b0.instrs@[old(block).instrs@.len() + j] by {}
                }
                i += 1;
            }
            proof {
                let sfull = block.instrs@.skip(old(block).instrs@.len() as int);
                assert forall|j: int| 0 <= j < sfull.len() implies #[trigger] sfull[j] == block.instrs@[old(block).instrs@.len() + j] by {}
            }
        },
        AstNode::Return { values } => {
            let vals = build_values(builder, values, block);
            block.terminator = Some(MirInstr::Return { values: vals });
        },
        AstNode::BinaryExpr { .. } | AstNode::FunctionCall { .. } => {
            build_expression(builder, stmt, block);
        },
        AstNode::Print { exprs } => {
            let ghost b0 = *block;
            let vals = build_values(builder, exprs, block);
            let ghost b1 = *block;
            block.instrs.push(MirInstr::Print { values: vals });
            proof {
                assert(block.instrs@.subrange(0, b1.instrs@.len() as int) =~= b1.instrs@);
                lemma_extends_trans(b0, b1, *block);
                let c0 = old(builder).tmp_counter as nat;
                let sfull = block.instrs@.skip(b0.instrs@.len() as int);
                lemma_emits_list_len(exprs@, exprs@.len(), c0, b1.instrs@.skip(b0.instrs@.len() as int));
                let n = instr_counts(exprs@, exprs@.len()) as int;
                assert(sfull.subrange(0, n) =~= b1.instrs@.skip(b0.instrs@.len() as int));
                assert(sfull[n] == block.instrs@.last());
            }
        },
        AstNode::Break => {
            match builder.current_loop() {
                Some(ctx) => {
                    block.terminator = Some(MirInstr::Jump { target: ctx.break_target.clone() });
                    assert(block.instrs@.skip(old(block).instrs@.len() as int) =~= Seq::<MirInstr>::empty());
                    assert(block.instrs@.subrange(0, old(block).instrs@.len() as int) =~= old(block).instrs@);
                },
                None => {
                    proof {
                        assert(false);
                    }
                },
            }
        },
        AstNode::Continue => {
            match builder.current_loop() {
                Some(ctx) => {
                    block.terminator = Some(MirInstr::Jump { target: ctx.continue_target.clone() });
                    assert(block.instrs@.skip(old(block).instrs@.len() as int) =~= Seq::<MirInstr>::empty());
                    assert(block.instrs@.subrange(0, old(block).instrs@.len() as int) =~= old(block).instrs@);
                },
                None => {
                    proof {
                        assert(false);
                    }
                },
            }
        },
        _ => {
            proof {
                assert(block.instrs@.subrange(0, block.instrs@.len() as int) =~= block.instrs@);
                assert(block.instrs@.skip(block.instrs@.len() as int) =~= Seq::<MirInstr>::empty());
            }
        },
    }
}

/// Lowers each value in order and gives the names holding them.
fn build_values(builder: &mut MirBuilder, values: &Vec<AstNode>, block: &mut MirBlock) -> (r: Vec<String>)
    requires
        forall|i: int| 0 <= i < values.len() ==> lowerable(#[trigger] values@[i]),
        old(builder).room_for(exprs_cost(values@)),
    ensures
        r@.len() == values@.len(),
        views(r@) == result_names(values@, values@.len(), old(builder).tmp_counter as nat),
        emits_list(values@, values@.len(), old(builder).tmp_counter as nat, final(block).instrs@.skip(
            old(block).instrs@.len() as int,
        )),
        final(builder).tmp_counter == old(builder).tmp_counter + exprs_cost(values@),
        final(block).label == old(block).label,
        final(block).terminator == old(block).terminator,
        final(builder).steps_within(old(builder), exprs_cost(values@)),
        final(builder).program == old(builder).program,
        extends(*final(block), *old(block)),
{
    let mut vals: Vec<String> = Vec::new();
    let mut i: usize = 0;
    proof {
        assert(values@.take(0) =~= Seq::<AstNode>::empty());
        assert(block.instrs@.subrange(0, block.instrs@.len() as int) =~= block.instrs@);
    }
    while i < values.len()
        invariant
            forall|i: int| 0 <= i < values.len() ==> lowerable(#[trigger] values@[i]),
            old(builder).room_for(exprs_cost(values@)),
            i <= values.len(),
            vals@.len() == i,
            builder.steps_within(old(builder), exprs_cost(values@.take(i as int))),
            builder.tmp_counter == old(builder).tmp_counter + exprs_cost(values@.take(i as int)),
            builder.block_counter == old(builder).block_counter,
            builder.program == old(builder).program,
            extends(*block, *old(block)),
            views(vals@) == result_names(values@, i as nat, old(builder).tmp_counter as nat),
            emits_list(values@, i as nat, old(builder).tmp_counter as nat, block.instrs@.skip(old(block).instrs@.len() as int)),
        decreases values.len() - i,
    {
        proof {
            lemma_exprs_cost_prefix(values@, i as int);
        }
        let ghost b0 = *block;
        let ghost ci = builder.tmp_counter as nat;
        let t = build_expression(builder, &values[i], block);
        proof {
            lemma_extends_trans(*old(block), b0, *block);
            let c0 = old(builder).tmp_counter as nat;
            let sfull = block.instrs@.skip(old(block).instrs@.len() as int);
            let sprev = b0.instrs@.skip(old(block).instrs@.len() as int);
            lemma_emits_list_len(values@, i as nat, c0, sprev);
            lemma_emits_len(values@[i as int], ci, block.instrs@.skip(b0.instrs@.len() as int));
            let k = instr_counts(values@, i as nat) as int;
            assert(sfull.subrange(0, k) =~= sprev);
            assert(sfull.subrange(k, sfull.len() as int) =~= block.instrs@.skip(b0.instrs@.len() as int));
            assert(emits_list(values@, (i + 1) as nat, c0, sfull));
        }
        let ghost names = views(vals@);
        vals.push(t);
        assert(views(vals@) =~= names.push(result_name(values@[i as int], ci)));
        i += 1;
    }
    proof {
        assert(values@.take(values.len() as int) =~= values@);
    }
    vals
}

} // verus!

verus! {

/// `b` is the block `b0` an `if` started in, completed: the instructions of
/// the condition `cond` (lowered from the temporary `c`) follow those of
/// `b0`, and a conditional jump on the condition's result to `then_label`,
/// otherwise to `else_label`, ends it.
pub open spec fn branch_block(
    b: MirBlock,
    b0: MirBlock,
    cond: AstNode,
    c: nat,
    then_label: Seq<char>,
    else_label: Seq<char>,
) -> bool {
    &&& b.label == b0.label
    &&& b0.instrs@.len() <= b.instrs@.len()
    &&& b.instrs@.subrange(0, b0.instrs@.len() as int) == b0.instrs@
    &&& emits(cond, c, b.instrs@.skip(b0.instrs@.len() as int))
    &&& b.terminator matches Some(MirInstr::CondJump { cond: t, then_block, else_block })
    &&& t@ == result_name(cond, c)
    &&& then_block@ == then_label
    &&& else_block@ == else_label
}

/// `bs` ends with the blocks lowering an `if` appends to its function, the
/// `if` starting in the block `b0` with the temporary `c` and the block
/// number `k`: `b0` completed by its condition (see `branch_block`), whose
/// jump goes to block `k` (`then`) and, otherwise, to block `k + 1` (`else`)
/// when there is an `else`, to block `k + 2` (after the `if`) when there is
/// none; then the block the `then` branch (`then_body`, lowered from the
/// first temporary after the condition's) ended in (see `branch_ends`),
/// then, with an `else`, the block that branch ended in. Both branches end
/// with a terminator.
pub open spec fn if_blocks(
    bs: Seq<MirBlock>,
    b0: MirBlock,
    cond: AstNode,
    then_body: Seq<AstNode>,
    has_else: bool,
    c: nat,
    k: nat,
) -> bool {
    let m: int = if has_else {
        3
    } else {
        2
    };
    &&& bs.len() >= m
    &&& branch_block(
        bs[bs.len() - m],
        b0,
        cond,
        c,
        block_name(k),
        if has_else {
            block_name(k + 1)
        } else {
            block_name(k + 2)
        },
    )
    &&& bs[bs.len() - m + 1].terminator is Some
    &&& branch_ends(bs[bs.len() - m + 1], then_body, c + expr_cost(cond), block_name(k), block_name(k + 2))
    &&& has_else ==> bs.last().terminator is Some
}

/// `b` is the block a branch `body` lowered from the temporary `c` on ended
/// in, the branch starting in the fresh block `label`. A branch of flat
/// statements stays in that block, which holds what the statements emit
/// followed by the `DecRef`s that close the branch's scope; a branch of
/// straight-line statements ends with a jump to `end`, the block after the
/// `if`.
pub open spec fn branch_ends(b: MirBlock, body: Seq<AstNode>, c: nat, label: Seq<char>, end: Seq<char>) -> bool {
    &&& all_flat(body) ==> b.label@ == label && exists|n: int|
        0 <= n <= b.instrs@.len() && stmts_emit(body, c, #[trigger] b.instrs@.take(n)) && forall|j: int|
            n <= j < b.instrs@.len() ==> (#[trigger] b.instrs@[j]) is DecRef
    &&& all_straight(body) ==> (b.terminator matches Some(MirInstr::Jump { target }) && target@ == end)
}

/// Lowers the `then` branch of an `if` in a scope of its own, in a fresh
/// block `label`; unless the branch ends otherwise, its last block jumps to
/// `end`.
fn build_branch(builder: &mut MirBuilder, body: &Vec<AstNode>, label: String, end: &String) -> (b: MirBlock)
    requires
        stmts_lowerable(body@, old(builder).loop_stack@.len() > 0),
        old(builder).room_for(stmts_cost(body@)),
    ensures
        final(builder).steps_within(old(builder), stmts_cost(body@)),
        b.terminator is Some,
        branch_ends(b, body@, old(builder).tmp_counter as nat, label@, end@),
    decreases body, 3nat,
{
    let ghost mid = *builder;
    builder.enter_scope();
    let mut b = empty_block(label);
    build_stmts(builder, body, &mut b);
    let ghost built = b;
    let ghost scope = builder.rc_tracked_vars@;
    builder.exit_scope(&mut b);
    assert(builder.rc_tracked_vars@ =~= mid.rc_tracked_vars@);
    if b.terminator.is_none() {
        b.terminator = Some(MirInstr::Jump { target: end.clone() });
    }
    proof {
        if all_flat(body@) {
            let n = built.instrs@.len() as int;
            assert(built.instrs@.skip(0) =~= built.instrs@);
            assert(b.instrs@.take(n) =~= built.instrs@);
            lemma_decrefs_all(scope.last()@);
            assert forall|j: int| n <= j < b.instrs@.len() implies (#[trigger] b.instrs@[j]) is DecRef by {
                assert(b.instrs@[j] == decrefs(scope.last()@)[j - n]);
            }
        }
    }
    b
}

/// Lowers `if`: the condition ends the current block with a conditional
/// jump to the `then` block and to the `else` block (or, without one, to
/// the block after the `if`); each branch is lowered in a scope of its own
/// and jumps to the block after the `if` unless it ends otherwise. The
/// current block and the branches are added to the function being built,
/// and lowering continues in a fresh, empty block.
#[verifier::rlimit(30)]
fn build_conditional(builder: &mut MirBuilder, stmt: &AstNode, block: &mut MirBlock)
    requires
        *stmt is ConditionalStmt,
        stmt_lowerable(*stmt, old(builder).loop_stack@.len() > 0),
        old(builder).room_for(stmt_cost(*stmt)),
    ensures
        final(builder).steps_within(old(builder), stmt_cost(*stmt)),
        final(block).instrs@.len() == 0,
        final(block).terminator is None,
        exists|k: nat| old(builder).block_counter <= k < final(builder).block_counter && final(block).label@ == block_name(k),
        final(block).label@ == block_name((old(builder).block_counter + 2) as nat),
        old(builder).program.functions@.len() > 0 ==> (*stmt matches AstNode::ConditionalStmt {
            condition,
            then_block,
            else_branch,
        } && if_blocks(
            final(builder).program.functions@.last().blocks@,
            *old(block),
            *condition,
            then_block@,
            else_branch is Some,
            old(builder).tmp_counter as nat,
            old(builder).block_counter as nat,
        )),
    decreases stmt, 0nat,
{
    match stmt {
        AstNode::ConditionalStmt { condition, then_block, else_branch } => {
            let ghost b0 = *block;
            let ghost c = builder.tmp_counter as nat;
            let ghost k = builder.block_counter as nat;
            let cond_tmp = build_expression(builder, condition, block);
            let then_label = builder.next_block();
            let else_label = builder.next_block();
            let ghost end_k = builder.block_counter as nat;
            let end_label = builder.next_block();
            let else_target = if else_branch.is_some() {
                else_label.clone()
            } else {
                end_label.clone()
            };
            block.terminator = Some(
                MirInstr::CondJump { cond: cond_tmp, then_block: then_label.clone(), else_block: else_target },
            );
            let ghost completed = *block;
            assert(branch_block(
                completed,
                b0,
                **condition,
                c,
                block_name(k),
                if else_branch is Some {
                    block_name(k + 1)
                } else {
                    block_name(k + 2)
                },
            ));
            let ghost c2 = builder.tmp_counter as nat;
            assert(decreases_to!(*stmt => stmt->ConditionalStmt_then_block));
            let then_mir = build_branch(builder, then_block, then_label, &end_label);
            assert(branch_ends(then_mir, then_block@, c2, block_name(k), block_name(k + 2)));
            match else_branch {
                Some(else_stmt) => {
                    let ghost mid2 = *builder;
                    builder.enter_scope();
                    let mut else_mir = empty_block(else_label);
                    assert(decreases_to!(*stmt => stmt->ConditionalStmt_else_branch));
                    match &**else_stmt {
                        AstNode::Block(statements) => {
                            build_stmts(builder, statements, &mut else_mir);
                        },
                        _ => {
                            build_statement(builder, else_stmt, &mut else_mir);
                        },
                    }
                    builder.exit_scope(&mut else_mir);
                    assert(builder.rc_tracked_vars@ =~= mid2.rc_tracked_vars@);
                    if else_mir.terminator.is_none() {
                        else_mir.terminator = Some(MirInstr::Jump { target: end_label.clone() });
                    }
                    let mut started = empty_block(String::new());
                    std::mem::swap(&mut started, block);
                    builder.push_to_current(started);
                    builder.push_to_current(then_mir);
                    builder.push_to_current(else_mir);
                },
                None => {
                    let mut started = empty_block(String::new());
                    std::mem::swap(&mut started, block);
                    builder.push_to_current(started);
                    builder.push_to_current(then_mir);
                },
            }
            *block = empty_block(end_label);
            assert(block.label@ == block_name(end_k));
        },
        _ => {
            proof {
                assert(false);
            }
        },
    }
}

/// `bs` are the blocks of a loop before its exit is linked: the header
/// (labelled `header`), whose last instruction compares the loop's counter
/// with the operation `op` (for a counter named `v`, with `v_end`) and
/// whose conditional jump on that comparison goes to the body (`body`) or
/// to the exit (`end`); the block the body ended in, which ends with a
/// terminator (for a body of straight-line statements or one ending with
/// `continue`, a jump to the increment block, see `to_increment`); the increment block (`increment`), which adds one to
/// the counter and jumps back to the header; and the empty exit block,
/// still open.
pub open spec fn loop_shape(
    bs: Seq<MirBlock>,
    header: Seq<char>,
    body: Seq<char>,
    increment: Seq<char>,
    end: Seq<char>,
    op: Seq<char>,
    counter_name: Option<Seq<char>>,
    body_continues: bool,
) -> bool {
    &&& bs.len() == 4
    &&& bs[0].label@ == header
    &&& bs[0].instrs@.len() > 0
    &&& bs[0].instrs@.last() matches MirInstr::BinaryOp(o, test, x, y)
    &&& o@ == op
    &&& counter_name matches Some(v) ==> x@ == v && y@ == v + "_end"@
    &&& body_continues ==> (bs[1].terminator matches Some(MirInstr::Jump { target: t }) && t@ == increment)
    &&& bs[0].terminator matches Some(MirInstr::CondJump { cond, then_block, else_block })
    &&& cond == test
    &&& then_block@ == body
    &&& else_block@ == end
    &&& bs[1].terminator is Some
    &&& bs[2].label@ == increment
    &&& bs[2].instrs@.len() == 3
    &&& bs[2].instrs@[0] matches MirInstr::ConstInt { name: one, value: step }
    &&& step == 1
    &&& bs[2].instrs@[1] matches MirInstr::BinaryOp(op, sum, counter, rhs)
    &&& op@ == "add"@
    &&& rhs == one
    &&& counter == x
    &&& bs[2].instrs@[2] matches MirInstr::Assign { name, value: v, mutable }
    &&& name == counter
    &&& v == sum
    &&& mutable
    &&& bs[2].terminator matches Some(MirInstr::Jump { target })
    &&& target@ == header
    &&& bs[3].label@ == end
    &&& bs[3].instrs@.len() == 0
    &&& bs[3].terminator is None
}

/// `bs` ends with the blocks of a loop (see `loop_shape`) whose exit block
/// jumps to `exit`.
pub open spec fn loop_blocks(
    bs: Seq<MirBlock>,
    header: Seq<char>,
    body: Seq<char>,
    increment: Seq<char>,
    end: Seq<char>,
    exit: Seq<char>,
    op: Seq<char>,
    counter_name: Option<Seq<char>>,
    body_continues: bool,
) -> bool {
    &&& bs.len() >= 4
    &&& loop_shape(
        bs.subrange(bs.len() - 4, bs.len() as int).update(
            3,
            MirBlock { label: bs.last().label, instrs: bs.last().instrs, terminator: None },
        ),
        header,
        body,
        increment,
        end,
        op,
        counter_name,
        body_continues,
    )
    &&& bs.last().terminator matches Some(MirInstr::Jump { target })
    &&& target@ == exit
}

/// `bs` ends with the blocks of a `for` loop over an iterable that started
/// in the block `b0` and whose labels were numbered from `k`: `b0`
/// continued (see `entered`), then the header `k`, the body `k + 1`, the
/// increment `k + 2` and the exit `k + 3` (see `loop_blocks`), the exit
/// jumping to `exit`; the header's test is that of `loop_test`.
pub open spec fn for_blocks(bs: Seq<MirBlock>, b0: MirBlock, k: nat, exit: Seq<char>, t: (Seq<char>, Option<Seq<char>>, bool)) -> bool {
    &&& bs.len() >= 5
    &&& entered(bs[bs.len() - 5], b0, block_name(k))
    &&& loop_blocks(bs, block_name(k), block_name(k + 1), block_name(k + 2), block_name(k + 3), exit, t.0, t.1, t.2)
}

/// The test of a `for` loop's header over `it` with the pattern `p` and
/// the body `body`: `le` for an inclusive range, `lt` otherwise; the
/// counter compared, for a range bound to a name, is that name (against
/// the name followed by `_end`); and whether the body ends by jumping to the
/// increment block (see `to_increment`).
pub open spec fn loop_test(it: AstNode, p: Pattern, body: Seq<AstNode>) -> (Seq<char>, Option<Seq<char>>, bool) {
    let op = if it matches AstNode::BinaryExpr { op: TokenType::RangeInc, .. } {
        "le"@
    } else {
        "lt"@
    };
    let counter_name = if (it matches AstNode::BinaryExpr { op, .. } && (op == TokenType::RangeInc || op == TokenType::RangeExc)) && p is Identifier {
        Some(p->Identifier_0@)
    } else {
        None
    };
    (op, counter_name, to_increment(body))
}

/// The body of a loop ends by jumping to the loop's increment block: its
/// statements are straight-line, or its last statement is `continue`.
pub open spec fn to_increment(body: Seq<AstNode>) -> bool {
    all_straight(body) || (body.len() > 0 && body.last() is Continue)
}

/// `b` is the block `b0` a loop started in, continued by the loop's setup
/// and, unless `b0` already ended, ended by a jump to the loop's header.
pub open spec fn entered(b: MirBlock, b0: MirBlock, header: Seq<char>) -> bool {
    &&& b.label == b0.label
    &&& extends_instrs(b, b0)
    &&& b0.terminator is None ==> (b.terminator matches Some(MirInstr::Jump { target }) && target@ == header)
    &&& b0.terminator is Some ==> b.terminator == b0.terminator
}

/// The name a pattern element binds, or a fresh temporary for anything else.
fn name_or_tmp(builder: &mut MirBuilder, p: &Pattern) -> (r: String)
    requires
        old(builder).tmp_counter < usize::MAX,
    ensures
        old(builder).tmp_counter <= final(builder).tmp_counter <= old(builder).tmp_counter + 1,
        final(builder).block_counter == old(builder).block_counter,
        final(builder).same_structure(old(builder)),
        final(builder).mir_symbol_table == old(builder).mir_symbol_table,
        p matches Pattern::Identifier(n) ==> r@ == n@ && final(builder).tmp_counter == old(builder).tmp_counter,
        !(p is Identifier) ==> r@ == tmp_name(old(builder).tmp_counter as nat) && final(builder).tmp_counter == old(
            builder,
        ).tmp_counter + 1,
{
    match p {
        Pattern::Identifier(n) => n.clone(),
        _ => builder.next_tmp(),
    }
}

/// Makes the entry of a loop jump to its header: the current block, unless
/// it already ends, in which case the last open block of the function.
fn enter_header(builder: &mut MirBuilder, block: &mut MirBlock, header: &String)
    ensures
        final(builder).same_but_blocks(old(builder)),
        final(block).label == old(block).label,
        final(block).instrs == old(block).instrs,
        old(block).terminator is None ==> final(block).terminator == Some(MirInstr::Jump { target: *header }),
        old(block).terminator is Some ==> final(block).terminator == old(block).terminator,
{
    if block.terminator.is_none() {
        block.terminator = Some(MirInstr::Jump { target: header.clone() });
    } else {
        builder.link_open_block(header);
    }
}

/// The block that adds one to `var` and jumps back to `header`.
fn increment_block(builder: &mut MirBuilder, label: String, var: &String, header: &String) -> (b: MirBlock)
    requires
        old(builder).tmp_counter + 2 <= usize::MAX,
    ensures
        final(builder).tmp_counter == old(builder).tmp_counter + 2,
        final(builder).block_counter == old(builder).block_counter,
        final(builder).same_structure(old(builder)),
        final(builder).mir_symbol_table == old(builder).mir_symbol_table,
        b.label == label,
        b.instrs@.len() == 3,
        b.instrs@[0] matches MirInstr::ConstInt { name: one, value: step } && step == 1 && (b.instrs@[1] matches MirInstr::BinaryOp(op, sum, counter, rhs) && op@ == "add"@ && rhs == one && counter == *var && (b.instrs@[2] matches MirInstr::Assign { name, value: v, mutable } && name == counter && v == sum && mutable)),
        b.terminator matches Some(MirInstr::Jump { target }) && target == *header,
{
    let one_tmp = builder.next_tmp();
    let new_val = builder.next_tmp();
    let mut instrs: Vec<MirInstr> = Vec::new();
    instrs.push(MirInstr::ConstInt { name: one_tmp.clone(), value: 1 });
    instrs.push(MirInstr::BinaryOp(String::from_str("add"), new_val.clone(), var.clone(), one_tmp));
    instrs.push(MirInstr::Assign { name: var.clone(), value: new_val, mutable: true });
    proof {
        reveal_strlit("add");
    }
    MirBlock { label, instrs, terminator: Some(MirInstr::Jump { target: header.clone() }) }
}

/// The labels of a loop's header, body, increment and exit blocks.
struct LoopLabels {
    header: String,
    body: String,
    increment: String,
    end: String,
}

/// Lowers the body of a loop into a fresh block that, unless it ends
/// otherwise, jumps to the increment block.
fn build_loop_body(builder: &mut MirBuilder, prefix: Vec<MirInstr>, labels: &LoopLabels, body: &Vec<AstNode>) -> (b: MirBlock)
    requires
        stmts_lowerable(body@, true),
        old(builder).loop_stack@.len() > 0,
        old(builder).loop_stack@.last().continue_target@ == labels.increment@,
        old(builder).room_for(stmts_cost(body@)),
    ensures
        final(builder).steps_within(old(builder), stmts_cost(body@)),
        b.terminator is Some,
        to_increment(body@) ==> (b.terminator matches Some(MirInstr::Jump { target }) && target@ == labels.increment@),
    decreases body, 3nat,
{
    let mut body_block = MirBlock { label: labels.body.clone(), instrs: prefix, terminator: None };
    build_stmts(builder, body, &mut body_block);
    if body_block.terminator.is_none() {
        body_block.terminator = Some(MirInstr::Jump { target: labels.increment.clone() });
    }
    body_block
}

/// Lowers `for v in a..b` (or `a..=b`): `v` starts at `a`, the header
/// compares it with the end, the increment adds one.
fn build_range_loop(
    builder: &mut MirBuilder,
    block: &mut MirBlock,
    left: &AstNode,
    op: TokenType,
    right: &AstNode,
    loop_var: &String,
    labels: &LoopLabels,
    body: &Vec<AstNode>,
    to_add: &mut Vec<MirBlock>,
)
    requires
        lowerable(*left),
        lowerable(*right),
        stmts_lowerable(body@, true),
        old(builder).loop_stack@.len() > 0,
        old(builder).loop_stack@.last().continue_target@ == labels.increment@,
        old(builder).room_for(expr_cost(*left) + expr_cost(*right) + 3 + stmts_cost(body@)),
        old(to_add)@.len() == 0,
    ensures
        final(builder).steps_within(old(builder), expr_cost(*left) + expr_cost(*right) + 3 + stmts_cost(body@)),
        loop_shape(
            final(to_add)@,
            labels.header@,
            labels.body@,
            labels.increment@,
            labels.end@,
            if op == TokenType::RangeInc { "le"@ } else { "lt"@ },
            Some(loop_var@),
            to_increment(body@),
        ),
        entered(*final(block), *old(block), labels.header@),
    decreases body, 4nat,
{
    let ghost b0 = *block;
    let start_tmp = build_expression(builder, left, block);
    block.instrs.push(MirInstr::Assign { name: loop_var.clone(), value: start_tmp, mutable: true });
    proof {
        assert(block.instrs@.subrange(0, b0.instrs@.len() as int) =~= b0.instrs@);
    }
    let end_tmp = build_expression(builder, right, block);
    proof {
        assert(block.instrs@.subrange(0, b0.instrs@.len() as int) =~= b0.instrs@);
    }
    let end_var = suffixed(loop_var, "_end");
    block.instrs.push(MirInstr::Assign { name: end_var.clone(), value: end_tmp, mutable: false });
    proof {
        assert(block.instrs@.subrange(0, b0.instrs@.len() as int) =~= b0.instrs@);
    }
    enter_header(builder, block, &labels.header);
    let test_tmp = builder.next_tmp();
    let op_str = if op == TokenType::RangeInc {
        "le"
    } else {
        "lt"
    };
    let mut header_instrs: Vec<MirInstr> = Vec::new();
    header_instrs.push(MirInstr::BinaryOp(String::from_str(op_str), test_tmp.clone(), loop_var.clone(), end_var));
    to_add.push(
        MirBlock {
            label: labels.header.clone(),
            instrs: header_instrs,
            terminator: Some(
                MirInstr::CondJump { cond: test_tmp, then_block: labels.body.clone(), else_block: labels.end.clone() },
            ),
        },
    );
    let body_block = build_loop_body(builder, Vec::new(), labels, body);
    to_add.push(body_block);
    let inc = increment_block(builder, labels.increment.clone(), loop_var, &labels.header);
    to_add.push(inc);
    to_add.push(empty_block(labels.end.clone()));
}

/// Lowers `for v in collection` over an array (by index): the collection
/// is stored in `v_array`, the index in `v__index`; each turn reads the
/// element and binds it to `v`, or, for a `(key, value)` pattern, splits it
/// into the two names.
fn build_array_loop(
    builder: &mut MirBuilder,
    block: &mut MirBlock,
    iter_expr: &AstNode,
    loop_var: &String,
    pair: Option<(String, String)>,
    labels: &LoopLabels,
    body: &Vec<AstNode>,
    to_add: &mut Vec<MirBlock>,
)
    requires
        lowerable(*iter_expr),
        stmts_lowerable(body@, true),
        old(builder).loop_stack@.len() > 0,
        old(builder).loop_stack@.last().continue_target@ == labels.increment@,
        old(builder).room_for(expr_cost(*iter_expr) + 6 + stmts_cost(body@)),
        old(to_add)@.len() == 0,
    ensures
        final(builder).steps_within(old(builder), expr_cost(*iter_expr) + 6 + stmts_cost(body@)),
        loop_shape(final(to_add)@, labels.header@, labels.body@, labels.increment@, labels.end@, "lt"@, None, to_increment(body@)),
        entered(*final(block), *old(block), labels.header@),
    decreases body, 4nat,
{
    let ghost b0 = *block;
    let iter_tmp = build_expression(builder, iter_expr, block);
    let array_var = suffixed(loop_var, "_array");
    block.instrs.push(MirInstr::Assign { name: array_var.clone(), value: iter_tmp, mutable: false });
    proof {
        assert(block.instrs@.subrange(0, b0.instrs@.len() as int) =~= b0.instrs@);
    }
    let index_var = suffixed(loop_var, "__index");
    let zero_tmp = builder.next_tmp();
    block.instrs.push(MirInstr::ConstInt { name: zero_tmp.clone(), value: 0 });
    proof {
        assert(block.instrs@.subrange(0, b0.instrs@.len() as int) =~= b0.instrs@);
    }
    block.instrs.push(MirInstr::Assign { name: index_var.clone(), value: zero_tmp, mutable: true });
    proof {
        assert(block.instrs@.subrange(0, b0.instrs@.len() as int) =~= b0.instrs@);
    }
    enter_header(builder, block, &labels.header);
    let len_tmp = builder.next_tmp();
    let test_tmp = builder.next_tmp();
    let mut header_instrs: Vec<MirInstr> = Vec::new();
    header_instrs.push(MirInstr::ArrayLen { name: len_tmp.clone(), array: array_var.clone() });
    header_instrs.push(MirInstr::BinaryOp(String::from_str("lt"), test_tmp.clone(), index_var.clone(), len_tmp));
    to_add.push(
        MirBlock {
            label: labels.header.clone(),
            instrs: header_instrs,
            terminator: Some(
                MirInstr::CondJump { cond: test_tmp, then_block: labels.body.clone(), else_block: labels.end.clone() },
            ),
        },
    );
    let elem_tmp = builder.next_tmp();
    let mut prefix: Vec<MirInstr> = Vec::new();
    prefix.push(MirInstr::ArrayGet { name: elem_tmp.clone(), array: array_var, index: index_var.clone() });
    match pair {
        Some((key, val)) => {
            prefix.push(MirInstr::TupleGet { name: key, tuple: elem_tmp.clone(), index: 0 });
            prefix.push(MirInstr::TupleGet { name: val, tuple: elem_tmp, index: 1 });
        },
        None => {
            prefix.push(MirInstr::Assign { name: loop_var.clone(), value: elem_tmp, mutable: false });
        },
    }
    let body_block = build_loop_body(builder, prefix, labels, body);
    to_add.push(body_block);
    let inc = increment_block(builder, labels.increment.clone(), &index_var, &labels.header);
    to_add.push(inc);
    to_add.push(empty_block(labels.end.clone()));
}

/// Lowers `for (k, v) in { ... }` over a map literal: the map is stored in
/// `k_v_map`, the position in `k_v__index`; each turn reads the pair at the
/// position and splits it into `k` and `v`.
fn build_map_loop(
    builder: &mut MirBuilder,
    block: &mut MirBlock,
    iter_expr: &AstNode,
    patterns: &Vec<Pattern>,
    labels: &LoopLabels,
    body: &Vec<AstNode>,
    to_add: &mut Vec<MirBlock>,
)
    requires
        patterns.len() == 2,
        lowerable(*iter_expr),
        stmts_lowerable(body@, true),
        old(builder).loop_stack@.len() > 0,
        old(builder).loop_stack@.last().continue_target@ == labels.increment@,
        old(builder).room_for(expr_cost(*iter_expr) + 8 + stmts_cost(body@)),
        old(to_add)@.len() == 0,
    ensures
        final(builder).steps_within(old(builder), expr_cost(*iter_expr) + 8 + stmts_cost(body@)),
        loop_shape(final(to_add)@, labels.header@, labels.body@, labels.increment@, labels.end@, "lt"@, None, to_increment(body@)),
        entered(*final(block), *old(block), labels.header@),
    decreases body, 4nat,
{
    let key_var = name_or_tmp(builder, &patterns[0]);
    let value_var = name_or_tmp(builder, &patterns[1]);
    let ghost b0 = *block;
    let iter_tmp = build_expression(builder, iter_expr, block);
    let mut map_var = suffixed(&key_var, "_");
    map_var.append(value_var.as_str());
    let index_var = suffixed(&map_var, "__index");
    map_var.append("_map");
    block.instrs.push(MirInstr::Assign { name: map_var.clone(), value: iter_tmp, mutable: false });
    proof {
        assert(block.instrs@.subrange(0, b0.instrs@.len() as int) =~= b0.instrs@);
    }
    let zero_tmp = builder.next_tmp();
    block.instrs.push(MirInstr::ConstInt { name: zero_tmp.clone(), value: 0 });
    proof {
        assert(block.instrs@.subrange(0, b0.instrs@.len() as int) =~= b0.instrs@);
    }
    block.instrs.push(MirInstr::Assign { name: index_var.clone(), value: zero_tmp, mutable: true });
    proof {
        assert(block.instrs@.subrange(0, b0.instrs@.len() as int) =~= b0.instrs@);
    }
    enter_header(builder, block, &labels.header);
    let len_tmp = builder.next_tmp();
    let test_tmp = builder.next_tmp();
    let mut header_instrs: Vec<MirInstr> = Vec::new();
    header_instrs.push(MirInstr::MapLen { name: len_tmp.clone(), map: map_var.clone() });
    header_instrs.push(MirInstr::BinaryOp(String::from_str("lt"), test_tmp.clone(), index_var.clone(), len_tmp));
    to_add.push(
        MirBlock {
            label: labels.header.clone(),
            instrs: header_instrs,
            terminator: Some(
                MirInstr::CondJump { cond: test_tmp, then_block: labels.body.clone(), else_block: labels.end.clone() },
            ),
        },
    );
    let pair_tmp = builder.next_tmp();
    let mut prefix: Vec<MirInstr> = Vec::new();
    prefix.push(MirInstr::MapGetPair { name: pair_tmp.clone(), map: map_var, index: index_var.clone() });
    prefix.push(MirInstr::TupleGet { name: key_var, tuple: pair_tmp.clone(), index: 0 });
    prefix.push(MirInstr::TupleGet { name: value_var, tuple: pair_tmp, index: 1 });
    let body_block = build_loop_body(builder, prefix, labels, body);
    to_add.push(body_block);
    let inc = increment_block(builder, labels.increment.clone(), &index_var, &labels.header);
    to_add.push(inc);
    to_add.push(empty_block(labels.end.clone()));
    if block.terminator.is_some() && to_add.len() > 0 && builder.loop_stack.len() == 1 {
        builder.link_open_block(&labels.header);
    }
}

/// `bs` ends with the blocks of an endless `for` loop whose labels were
/// numbered from `k`: the empty header `k`, which jumps to the body; the
/// block the body (`k + 1`) ended in, which ends with a terminator; and the
/// empty, open exit block `k + 2`.
pub open spec fn endless_blocks(bs: Seq<MirBlock>, k: nat) -> bool {
    &&& bs.len() >= 3
    &&& bs[bs.len() - 3].label@ == block_name(k)
    &&& bs[bs.len() - 3].instrs@.len() == 0
    &&& bs[bs.len() - 3].terminator matches Some(MirInstr::Jump { target })
    &&& target@ == block_name(k + 1)
    &&& bs[bs.len() - 2].terminator is Some
    &&& bs.last().label@ == block_name(k + 2)
    &&& bs.last().instrs@.len() == 0
    &&& bs.last().terminator is None
}

/// Appends to the function being built the current block, unless it is
/// still empty and open, and then the blocks of `to_add` in order.
fn append_loop_blocks(builder: &mut MirBuilder, block: &mut MirBlock, to_add: Vec<MirBlock>)
    requires
        old(builder).program.functions@.len() > 0,
    ensures
        final(builder).same_but_blocks(old(builder)),
        final(builder).program.functions@.last().blocks@.len() >= to_add@.len(),
        final(builder).program.functions@.last().blocks@.subrange(
            final(builder).program.functions@.last().blocks@.len() - to_add@.len(),
            final(builder).program.functions@.last().blocks@.len() as int,
        ) == to_add@,
        old(block).terminator is Some ==> final(builder).program.functions@.last().blocks@.len() >= to_add@.len() + 1
            && final(builder).program.functions@.last().blocks@[final(builder).program.functions@.last().blocks@.len()
            - to_add@.len() - 1] == *old(block),
{
    let mut to_add = to_add;
    let ghost added = to_add@;
    if block.instrs.len() > 0 || block.terminator.is_some() {
        let mut current = empty_block(String::new());
        std::mem::swap(&mut current, block);
        builder.push_to_current(current);
    }
    let ghost s3 = *builder;
    let ghost n3 = s3.program.functions@.len() as int;
    while to_add.len() > 0
        invariant
            builder.same_but_blocks(&s3),
            n3 == s3.program.functions@.len(),
            n3 > 0,
            to_add@.len() <= added.len(),
            to_add@ == added.skip(added.len() - to_add@.len()),
            builder.program.functions@[n3 - 1].blocks@ == s3.program.functions@[n3 - 1].blocks@ + added.take(
                added.len() - to_add@.len(),
            ),
        decreases to_add.len(),
    {
        let ghost before = to_add@;
        let b = to_add.remove(0);
        proof {
            assert(to_add@ =~= added.skip(added.len() - to_add@.len()));
            assert(added.take(added.len() - to_add@.len()) =~= added.take(added.len() - before.len()).push(b));
        }
        builder.push_to_current(b);
    }
    proof {
        let bs = builder.program.functions@[n3 - 1].blocks@;
        assert(added.take(added.len() as int) =~= added);
        assert(bs.subrange(bs.len() - added.len(), bs.len() as int) =~= added);
        if old(block).terminator is Some {
            let s3bs = s3.program.functions@[n3 - 1].blocks@;
            assert(bs[s3bs.len() - 1] == s3bs[s3bs.len() - 1]);
        }
    }
}

/// Linking the open exit of a loop's blocks, the last open block, makes it
/// jump to the target.
proof fn lemma_link_loop_exit(
    bs: Seq<MirBlock>,
    bs2: Seq<MirBlock>,
    added: Seq<MirBlock>,
    t: String,
    k: nat,
    b0: MirBlock,
    test: (Seq<char>, Option<Seq<char>>, bool),
)
    requires
        bs.len() >= 5,
        bs.subrange(bs.len() - 4, bs.len() as int) == added,
        loop_shape(added, block_name(k), block_name(k + 1), block_name(k + 2), block_name(k + 3), test.0, test.1, test.2),
        entered(bs[bs.len() - 5], b0, block_name(k)),
        linked(bs2, bs, t),
    ensures
        for_blocks(bs2, b0, k, t@, test),
{
    let n = bs.len() as int;
    assert(bs[n - 1] == added[3]);
    assert(bs[n - 1].terminator is None);
    if forall|j: int| 0 <= j < bs.len() ==> (#[trigger] bs[j]).terminator is Some {
        assert(bs[n - 1].terminator is Some);
    }
    let j = choose|j: int|
        0 <= j < bs.len() && (#[trigger] bs[j]).terminator is None && (forall|l: int|
            j < l < bs.len() ==> (#[trigger] bs[l]).terminator is Some) && bs2 == bs.update(
            j,
            MirBlock { label: bs[j].label, instrs: bs[j].instrs, terminator: Some(MirInstr::Jump { target: t }) },
        );
    assert(j == n - 1);
    let tail = bs2.subrange(n - 4, n).update(
        3,
        MirBlock { label: bs2.last().label, instrs: bs2.last().instrs, terminator: None },
    );
    assert(tail =~= added);
}

/// Linking another open block keeps a loop's closed blocks at the end.
proof fn lemma_link_keeps_loop(
    bs: Seq<MirBlock>,
    bs2: Seq<MirBlock>,
    k: nat,
    exit: Seq<char>,
    t: String,
    b0: MirBlock,
    test: (Seq<char>, Option<Seq<char>>, bool),
)
    requires
        for_blocks(bs, b0, k, exit, test),
        linked(bs2, bs, t),
    ensures
        for_blocks(bs2, b0, k, exit, test),
{
    let n = bs.len() as int;
    let added = bs.subrange(n - 4, n).update(
        3,
        MirBlock { label: bs.last().label, instrs: bs.last().instrs, terminator: None },
    );
    assert(added[1].terminator is Some);
    assert(bs[n - 4] == added[0]);
    assert(bs[n - 3] == added[1]);
    assert(bs[n - 2] == added[2]);
    if exists|j: int|
        0 <= j < bs.len() && (#[trigger] bs[j]).terminator is None && (forall|l: int|
            j < l < bs.len() ==> (#[trigger] bs[l]).terminator is Some) && bs2 == bs.update(
            j,
            MirBlock { label: bs[j].label, instrs: bs[j].instrs, terminator: Some(MirInstr::Jump { target: t }) },
        ) {
        let j = choose|j: int|
            0 <= j < bs.len() && (#[trigger] bs[j]).terminator is None && (forall|l: int|
                j < l < bs.len() ==> (#[trigger] bs[l]).terminator is Some) && bs2 == bs.update(
                j,
                MirBlock { label: bs[j].label, instrs: bs[j].instrs, terminator: Some(MirInstr::Jump { target: t }) },
            );
        assert(bs[n - 5].terminator is Some);
        assert(j < n - 5);
        assert(bs2.subrange(n - 4, n) =~= bs.subrange(n - 4, n));
        assert(bs2[n - 5] == bs[n - 5]);
    }
}

/// Lowers `for pattern in iter_expr { body }` (see `build_for`).
#[verifier::rlimit(30)]
fn build_iterated_for(
    builder: &mut MirBuilder,
    pattern: &Pattern,
    iter_expr: &Box<AstNode>,
    body: &Vec<AstNode>,
    block: &mut MirBlock,
)
    requires
        stmts_lowerable(body@, true),
        iterable_lowered(**iter_expr, *pattern) ==> lowerable(**iter_expr),
        old(builder).room_for(16 + stmts_cost(body@) + expr_cost(**iter_expr)),
    ensures
        final(builder).steps_within(old(builder), 16 + stmts_cost(body@) + expr_cost(**iter_expr)),
        final(block).instrs@.len() == 0,
        final(block).terminator is None,
        exists|k: nat| old(builder).block_counter <= k < final(builder).block_counter && final(block).label@ == block_name(k),
        old(builder).program.functions@.len() > 0 && iterable_lowered(**iter_expr, *pattern) ==> for_blocks(
            final(builder).program.functions@.last().blocks@,
            *old(block),
            old(builder).block_counter as nat,
            if old(builder).loop_stack@.len() > 0 {
                old(builder).loop_stack@.last().continue_target@
            } else {
                final(block).label@
            },
            loop_test(**iter_expr, *pattern, body@),
        ),
    decreases body, 5nat,
{
        let ghost s_start = *builder;
        let is_tuple_pattern = matches!(pattern, Pattern::Tuple(_));
        let pair: Option<(String, String)> = match pattern {
            Pattern::Tuple(ps) => {
                if ps.len() == 2 {
                    let k = name_or_tmp(builder, &ps[0]);
                    let v = name_or_tmp(builder, &ps[1]);
                    Some((k, v))
                } else {
                    None
                }
            },
            _ => None,
        };
        let loop_var = match pattern {
            Pattern::Identifier(name) => name.clone(),
            Pattern::Wildcard => String::from_str("_"),
            Pattern::Tuple(_) => builder.next_tmp(),
        };
        let labels = LoopLabels {
            header: builder.next_block(),
            body: builder.next_block(),
            increment: builder.next_block(),
            end: builder.next_block(),
        };
        assert(builder.tmp_counter <= s_start.tmp_counter + 3);
        assert(builder.block_counter == s_start.block_counter + 4);
        let ghost s0 = *builder;
        builder.enter_loop(labels.end.clone(), labels.increment.clone());
        let mut to_add: Vec<MirBlock> = Vec::new();
        let ghost s1 = *builder;
        assert(s1.room_for(expr_cost(**iter_expr) + 8 + stmts_cost(body@)));
        match &**iter_expr {
            AstNode::BinaryExpr { left, op, right } => {
                if *op == TokenType::RangeExc || *op == TokenType::RangeInc {
                    assert(iterable_lowered(**iter_expr, *pattern));
                    build_range_loop(builder, block, left, *op, right, &loop_var, &labels, body, &mut to_add);
                }
            },
            AstNode::MapLiteral(_) => {
                if let Pattern::Tuple(patterns) = pattern {
                    if patterns.len() == 2 {
                        assert(iterable_lowered(**iter_expr, *pattern));
                        build_map_loop(builder, block, iter_expr, patterns, &labels, body, &mut to_add);
                    }
                }
            },
            AstNode::ArrayLiteral(_) => {
                build_array_loop(builder, block, iter_expr, &loop_var, None, &labels, body, &mut to_add);
            },
            AstNode::Identifier(_) => {
                let kv = if is_tuple_pattern {
                    pair
                } else {
                    None
                };
                build_array_loop(builder, block, iter_expr, &loop_var, kv, &labels, body, &mut to_add);
            },
            _ => {},
        }
        let ghost s2 = *builder;
        let ghost added = to_add@;
        assert(s2.steps_within(&s1, expr_cost(**iter_expr) + 8 + stmts_cost(body@)));
        assert(iterable_lowered(**iter_expr, *pattern) ==> loop_shape(
            added,
            block_name(s_start.block_counter as nat),
            block_name((s_start.block_counter + 1) as nat),
            block_name((s_start.block_counter + 2) as nat),
            block_name((s_start.block_counter + 3) as nat),
            loop_test(**iter_expr, *pattern, body@).0,
            loop_test(**iter_expr, *pattern, body@).1,
            loop_test(**iter_expr, *pattern, body@).2,
        ));
        let ghost n = builder.program.functions@.len();
        let depth = builder.loop_stack.len();
        if builder.program.functions.len() > 0 {
            append_loop_blocks(builder, block, to_add);
            let ghost bs1 = builder.program.functions@.last().blocks@;
            if depth > 1 {
                let parent_continue = builder.loop_stack[depth - 2].continue_target.clone();
                builder.link_open_block(&parent_continue);
                proof {
                    if iterable_lowered(**iter_expr, *pattern) {
                        lemma_link_loop_exit(
                            bs1,
                            builder.program.functions@.last().blocks@,
                            added,
                            parent_continue,
                            s_start.block_counter as nat,
                            *old(block),
                            loop_test(**iter_expr, *pattern, body@),
                        );
                    }
                }
            }
        }
        let ghost bs2 = builder.program.functions@.last().blocks@;
        assert(builder.same_but_blocks(&s2));
        builder.exit_loop();
        assert(builder.loop_stack@ =~= s0.loop_stack@);
        let ghost cont_k = builder.block_counter as nat;
        let continuation_label = builder.next_block();
        builder.link_open_block(&continuation_label);
        proof {
            if n > 0 && iterable_lowered(**iter_expr, *pattern) {
                let bs3 = builder.program.functions@.last().blocks@;
                if depth > 1 {
                    lemma_link_keeps_loop(
                        bs2,
                        bs3,
                        s_start.block_counter as nat,
                        s_start.loop_stack@.last().continue_target@,
                        continuation_label,
                        *old(block),
                        loop_test(**iter_expr, *pattern, body@),
                    );
                } else {
                    lemma_link_loop_exit(
                        bs2,
                        bs3,
                        added,
                        continuation_label,
                        s_start.block_counter as nat,
                        *old(block),
                        loop_test(**iter_expr, *pattern, body@),
                    );
                }
            }
        }
        *block = empty_block(continuation_label);
        assert(block.label@ == block_name(cont_k));
}

/// Lowers `for`. Without an iterable the loop runs its body forever (until
/// a `break`): the current block jumps to a header that jumps to the body,
/// which jumps back; lowering then goes on in the same block. With an
/// iterable, a range, an array literal, a map literal (with a `(key,
/// value)` pattern) or a variable is iterated with an index (see the
/// helpers); the current block, the loop's blocks and, in a nested loop, a
/// jump from the loop's exit to the enclosing loop's increment are added to
/// the function, and lowering continues in a fresh, empty block.
#[verifier::rlimit(30)]
fn build_for(builder: &mut MirBuilder, stmt: &AstNode, block: &mut MirBlock)
    requires
        *stmt is ForLoopStmt,
        stmt_lowerable(*stmt, old(builder).loop_stack@.len() > 0),
        old(builder).room_for(stmt_cost(*stmt)),
    ensures
        final(builder).steps_within(old(builder), stmt_cost(*stmt)),
        (*stmt matches AstNode::ForLoopStmt { iterable, .. } && iterable is Some) ==> (final(block).instrs@.len() == 0
            && final(block).terminator is None && exists|k: nat|
            old(builder).block_counter <= k < final(builder).block_counter && final(block).label@ == block_name(k)),
        (*stmt matches AstNode::ForLoopStmt { iterable, .. } && iterable is None) ==> final(block).label == old(
            block,
        ).label && final(block).instrs == old(block).instrs && final(block).terminator is Some && (old(
            block,
        ).terminator is None ==> (final(block).terminator matches Some(MirInstr::Jump { target }) && target@
            == block_name(old(builder).block_counter as nat))) && (old(builder).program.functions@.len() > 0
            ==> endless_blocks(final(builder).program.functions@.last().blocks@, old(builder).block_counter as nat)),
        old(builder).program.functions@.len() > 0 ==> (*stmt matches AstNode::ForLoopStmt { pattern, iterable, body }
            ==> (iterable matches Some(it) ==> iterable_lowered(*it, pattern) ==> for_blocks(
            final(builder).program.functions@.last().blocks@,
            *old(block),
            old(builder).block_counter as nat,
            if old(builder).loop_stack@.len() > 0 {
                old(builder).loop_stack@.last().continue_target@
            } else {
                final(block).label@
            },
            loop_test(*it, pattern, body@),
        ))),
    decreases stmt, 0nat,
{
    match stmt {
        AstNode::ForLoopStmt { pattern, iterable, body } => {
            assert(decreases_to!(*stmt => stmt->ForLoopStmt_body));
            match iterable {
                None => {
                    let loop_header = builder.next_block();
                    let loop_body = builder.next_block();
                    let loop_end = builder.next_block();
                    let ghost s0 = *builder;
                    builder.enter_loop(loop_end.clone(), loop_header.clone());
                    enter_header(builder, block, &loop_header);
                    let header_block = MirBlock {
                        label: loop_header.clone(),
                        instrs: Vec::new(),
                        terminator: Some(MirInstr::Jump { target: loop_body.clone() }),
                    };
                    let mut body_block = empty_block(loop_body);
                    build_stmts(builder, body, &mut body_block);
                    if body_block.terminator.is_none() {
                        body_block.terminator = Some(MirInstr::Jump { target: loop_header });
                    }
                    builder.push_to_current(header_block);
                    builder.push_to_current(body_block);
                    builder.push_to_current(empty_block(loop_end));
                    builder.exit_loop();
                    assert(builder.loop_stack@ =~= s0.loop_stack@);
                    return;
                },
                Some(iter_expr) => {
                    build_iterated_for(builder, pattern, iter_expr, body, block);
                },
            }
        },
        _ => {
            proof {
                assert(false);
            }
        },
    }
}

} // verus!
