//! The lowering state: the program being built, fresh names for
//! temporaries and blocks, the enclosing loops and the reference-counted
//! variables of each scope.
use crate::analyzer::table::NameMap;
use crate::mir::declarations::{
    build_function_decl, build_let_decl, fn_cost, let_pattern_cost, opt_type_debug, straight_fn_blocks, type_text_of,
};
use crate::mir::expressions::{build_expression, build_nested_collection, expr_cost, exprs_cost, lowerable};
use crate::mir::cleanup::{finalized_blocks, finalized_globals};
use crate::mir::mir::{MirBlock, MirFunction, MirInstr, MirProgram};
use crate::mir::statements::{all_straight, build_statement, stmt_cost, stmt_lowerable, stmts_lowerable};
use crate::parser::ast::{AstNode, Pattern, TypeNode};
use crate::text::{decimal, usize_to_string};
use vstd::prelude::*;
use vstd::string::StringExecFns;

verus! {

broadcast use vstd::std_specs::vec::group_vec_axioms;

/// Where `break` and `continue` jump inside a loop.
#[derive(Debug, Clone)]
pub struct LoopContext {
    pub break_target: String,
    pub continue_target: String,
}

/// Lowers syntax trees into a `MirProgram`.
pub struct MirBuilder {
    pub program: MirProgram,
    /// The number of the next temporary (`%n`).
    pub tmp_counter: usize,
    /// The number of the next block (`Blockn`).
    pub block_counter: usize,
    /// The enclosing loops, innermost last.
    pub loop_stack: Vec<LoopContext>,
    /// The reference-counted variables of each open scope, innermost last.
    pub rc_tracked_vars: Vec<Vec<String>>,
    /// The types of the temporaries whose type is known.
    pub mir_symbol_table: NameMap<TypeNode>,
}

/// The name of temporary number `k`: `%k`.
pub open spec fn tmp_name(k: nat) -> Seq<char> {
    "%"@ + decimal(k)
}

/// The label of block number `k`: `Blockk`.
pub open spec fn block_name(k: nat) -> Seq<char> {
    "Block"@ + decimal(k)
}

/// Temporaries with different numbers have different names.
pub proof fn lemma_tmp_names_distinct(a: nat, b: nat)
    requires
        a != b,
    ensures
        tmp_name(a) != tmp_name(b),
{
    crate::text::lemma_decimal_injective(a, b);
    reveal_strlit("%");
    if tmp_name(a) == tmp_name(b) {
        assert(decimal(a) =~= tmp_name(a).subrange(1, tmp_name(a).len() as int));
        assert(decimal(b) =~= tmp_name(b).subrange(1, tmp_name(b).len() as int));
    }
}

/// Blocks with different numbers have different labels.
pub proof fn lemma_block_names_distinct(a: nat, b: nat)
    requires
        a != b,
    ensures
        block_name(a) != block_name(b),
{
    crate::text::lemma_decimal_injective(a, b);
    reveal_strlit("Block");
    if block_name(a) == block_name(b) {
        assert(decimal(a) =~= block_name(a).subrange(5, block_name(a).len() as int));
        assert(decimal(b) =~= block_name(b).subrange(5, block_name(b).len() as int));
    }
}

/// The `DecRef`s that close a scope: one per variable, last tracked first.
pub open spec fn decrefs(vars: Seq<String>) -> Seq<MirInstr>
    decreases vars.len(),
{
    if vars.len() == 0 {
        Seq::empty()
    } else {
        seq![MirInstr::DecRef { value: vars.last() }] + decrefs(vars.drop_last())
    }
}

/// Every instruction closing a scope is a `DecRef`.
pub proof fn lemma_decrefs_all(vars: Seq<String>)
    ensures
        forall|j: int| 0 <= j < decrefs(vars).len() ==> (#[trigger] decrefs(vars)[j]) is DecRef,
        decrefs(vars).len() == vars.len(),
    decreases vars.len(),
{
    if vars.len() > 0 {
        lemma_decrefs_all(vars.drop_last());
        let d = decrefs(vars);
        let r = decrefs(vars.drop_last());
        assert forall|j: int| 0 <= j < d.len() implies (#[trigger] d[j]) is DecRef by {
            if j > 0 {
                assert(d[j] == r[j - 1]);
            }
        }
    }
}

impl MirBuilder {
    /// `self` and `other` agree on everything but the counters and the
    /// temporaries' types.
    pub open spec fn same_structure(&self, other: &Self) -> bool {
        &&& self.program == other.program
        &&& self.loop_stack == other.loop_stack
        &&& self.rc_tracked_vars == other.rc_tracked_vars
    }

    /// A builder for an entry module: an empty program, temporaries from
    /// `%1`, blocks from `Block0`, no loop, one (global) scope.
    pub fn new() -> (r: Self)
        ensures
            r.program.functions@.len() == 0,
            r.program.globals@.len() == 0,
            r.program.is_main_entry,
            r.tmp_counter == 1,
            r.block_counter == 0,
            r.loop_stack@.len() == 0,
            r.rc_tracked_vars@.len() == 1,
            r.rc_tracked_vars@[0]@.len() == 0,
            r.mir_symbol_table@ == Map::<Seq<char>, crate::parser::ast::TypeModel>::empty(),
    {
        let mut scopes: Vec<Vec<String>> = Vec::new();
        scopes.push(Vec::new());
        MirBuilder {
            program: MirProgram { functions: Vec::new(), globals: Vec::new(), is_main_entry: true },
            tmp_counter: 1,
            block_counter: 0,
            loop_stack: Vec::new(),
            rc_tracked_vars: scopes,
            mir_symbol_table: NameMap::new(),
        }
    }

    /// Marks the program as an entry module or an imported one.
    pub fn set_is_main_entry(&mut self, is_main: bool)
        ensures
            final(self).program.is_main_entry == is_main,
            final(self).program.functions == old(self).program.functions,
            final(self).program.globals == old(self).program.globals,
            final(self).tmp_counter == old(self).tmp_counter,
            final(self).block_counter == old(self).block_counter,
            final(self).loop_stack == old(self).loop_stack,
            final(self).rc_tracked_vars == old(self).rc_tracked_vars,
            final(self).mir_symbol_table == old(self).mir_symbol_table,
    {
        self.program.is_main_entry = is_main;
    }

    /// A fresh temporary: `%n` for the current count, which then advances.
    pub fn next_tmp(&mut self) -> (r: String)
        requires
            old(self).tmp_counter < usize::MAX,
        ensures
            r@ == tmp_name(old(self).tmp_counter as nat),
            final(self).tmp_counter == old(self).tmp_counter + 1,
            final(self).block_counter == old(self).block_counter,
            final(self).same_structure(old(self)),
            final(self).mir_symbol_table == old(self).mir_symbol_table,
    {
        let mut tmp = String::from_str("%");
        tmp.append(usize_to_string(self.tmp_counter).as_str());
        self.tmp_counter = self.tmp_counter + 1;
        tmp
    }

    /// A fresh block label: `Blockn` for the current count, which then advances.
    pub fn next_block(&mut self) -> (r: String)
        requires
            old(self).block_counter < usize::MAX,
        ensures
            r@ == block_name(old(self).block_counter as nat),
            final(self).block_counter == old(self).block_counter + 1,
            final(self).tmp_counter == old(self).tmp_counter,
            final(self).same_structure(old(self)),
            final(self).mir_symbol_table == old(self).mir_symbol_table,
    {
        let mut label = String::from_str("Block");
        label.append(usize_to_string(self.block_counter).as_str());
        self.block_counter = self.block_counter + 1;
        label
    }

    /// Enters a loop whose `break` goes to `break_target` and whose
    /// `continue` goes to `continue_target`.
    pub fn enter_loop(&mut self, break_target: String, continue_target: String)
        ensures
            final(self).loop_stack@ == old(self).loop_stack@.push(LoopContext { break_target, continue_target }),
            final(self).program == old(self).program,
            final(self).rc_tracked_vars == old(self).rc_tracked_vars,
            final(self).tmp_counter == old(self).tmp_counter,
            final(self).block_counter == old(self).block_counter,
            final(self).mir_symbol_table == old(self).mir_symbol_table,
    {
        self.loop_stack.push(LoopContext { break_target, continue_target });
    }

    /// Leaves the innermost loop.
    pub fn exit_loop(&mut self)
        ensures
            final(self).loop_stack@ == (if old(self).loop_stack@.len() > 0 {
                old(self).loop_stack@.drop_last()
            } else {
                old(self).loop_stack@
            }),
            final(self).program == old(self).program,
            final(self).rc_tracked_vars == old(self).rc_tracked_vars,
            final(self).tmp_counter == old(self).tmp_counter,
            final(self).block_counter == old(self).block_counter,
            final(self).mir_symbol_table == old(self).mir_symbol_table,
    {
        self.loop_stack.pop();
    }

    /// The innermost loop, if any.
    pub fn current_loop(&self) -> (r: Option<&LoopContext>)
        ensures
            self.loop_stack@.len() == 0 ==> r is None,
            self.loop_stack@.len() > 0 ==> r == Some(&self.loop_stack@.last()),
    {
        if self.loop_stack.len() == 0 {
            None
        } else {
            Some(&self.loop_stack[self.loop_stack.len() - 1])
        }
    }

    /// Opens a scope for reference-counted variables.
    pub fn enter_scope(&mut self)
        ensures
            final(self).rc_tracked_vars@.len() == old(self).rc_tracked_vars@.len() + 1,
            final(self).rc_tracked_vars@.drop_last() == old(self).rc_tracked_vars@,
            final(self).rc_tracked_vars@.last()@.len() == 0,
            final(self).program == old(self).program,
            final(self).loop_stack == old(self).loop_stack,
            final(self).tmp_counter == old(self).tmp_counter,
            final(self).block_counter == old(self).block_counter,
            final(self).mir_symbol_table == old(self).mir_symbol_table,
    {
        self.rc_tracked_vars.push(Vec::new());
    }

    /// Closes the innermost scope, appending to `block` a `DecRef` for each
    /// of its reference-counted variables, the last tracked first.
    pub fn exit_scope(&mut self, block: &mut MirBlock)
        ensures
            old(self).rc_tracked_vars@.len() > 0 ==> final(self).rc_tracked_vars@ == old(self).rc_tracked_vars@.drop_last()
                && final(block).instrs@ == old(block).instrs@ + decrefs(old(self).rc_tracked_vars@.last()@),
            old(self).rc_tracked_vars@.len() == 0 ==> final(self).rc_tracked_vars@ == old(self).rc_tracked_vars@
                && final(block).instrs@ == old(block).instrs@,
            final(block).label == old(block).label,
            final(block).terminator == old(block).terminator,
            final(self).program == old(self).program,
            final(self).loop_stack == old(self).loop_stack,
            final(self).tmp_counter == old(self).tmp_counter,
            final(self).block_counter == old(self).block_counter,
            final(self).mir_symbol_table == old(self).mir_symbol_table,
    {
        match self.rc_tracked_vars.pop() {
            Some(scope_vars) => {
                let ghost start = block.instrs@;
                let mut i = scope_vars.len();
                assert(scope_vars@.take(i as int) =~= scope_vars@);
                while i > 0
                    invariant
                        i <= scope_vars.len(),
                        block.label == old(block).label,
                        block.terminator == old(block).terminator,
                        start == old(block).instrs@,
                        block.instrs@ + decrefs(scope_vars@.take(i as int)) == start + decrefs(scope_vars@),
                    decreases i,
                {
                    proof {
                        let t = scope_vars@.take(i as int);
                        assert(t.drop_last() =~= scope_vars@.take(i - 1));
                        assert(t.last() == scope_vars@[i - 1]);
                        assert(decrefs(t) == seq![MirInstr::DecRef { value: t.last() }] + decrefs(t.drop_last()));
                        assert(block.instrs@.push(MirInstr::DecRef { value: scope_vars@[i - 1] }) + decrefs(
                            scope_vars@.take(i - 1),
                        ) =~= block.instrs@ + decrefs(t));
                    }
                    block.instrs.push(MirInstr::DecRef { value: scope_vars[i - 1].clone() });
                    i -= 1;
                }
                proof {
                    assert(scope_vars@.take(0) =~= Seq::<String>::empty());
                    assert(block.instrs@ + decrefs(Seq::<String>::empty()) =~= block.instrs@);
                }
            },
            None => {},
        }
    }

    /// Records `var` as reference counted in the innermost scope.
    pub fn track_rc_var(&mut self, var: String)
        ensures
            old(self).rc_tracked_vars@.len() > 0 ==> final(self).rc_tracked_vars@ == old(self).rc_tracked_vars@.update(
                old(self).rc_tracked_vars@.len() - 1,
                final(self).rc_tracked_vars@.last(),
            ) && final(self).rc_tracked_vars@.last()@ == old(self).rc_tracked_vars@.last()@.push(var),
            old(self).rc_tracked_vars@.len() == 0 ==> final(self).rc_tracked_vars@ == old(self).rc_tracked_vars@,
            final(self).program == old(self).program,
            final(self).loop_stack == old(self).loop_stack,
            final(self).tmp_counter == old(self).tmp_counter,
            final(self).block_counter == old(self).block_counter,
            final(self).mir_symbol_table == old(self).mir_symbol_table,
    {
        let n = self.rc_tracked_vars.len();
        if n > 0 {
            let mut scope = self.rc_tracked_vars.pop().unwrap();
            scope.push(var);
            self.rc_tracked_vars.push(scope);
            assert(self.rc_tracked_vars@ =~= old(self).rc_tracked_vars@.update(n - 1, self.rc_tracked_vars@.last()));
        }
    }

    /// Whether `var` is tracked as reference counted in some open scope.
    pub fn is_rc_tracked(&self, var: &str) -> (r: bool)
        ensures
            r == exists|i: int, j: int|
                0 <= i < self.rc_tracked_vars@.len() && 0 <= j < self.rc_tracked_vars@[i]@.len()
                    && (#[trigger] self.rc_tracked_vars@[i]@[j])@ == var@,
    {
        let target = String::from_str(var);
        let mut i: usize = 0;
        while i < self.rc_tracked_vars.len()
            invariant
                target@ == var@,
                i <= self.rc_tracked_vars@.len(),
                forall|a: int, b: int|
                    0 <= a < i && 0 <= b < self.rc_tracked_vars@[a]@.len() ==> (#[trigger] self.rc_tracked_vars@[a]@[b])@
                        != var@,
            decreases self.rc_tracked_vars@.len() - i,
        {
            let scope = &self.rc_tracked_vars[i];
            let mut j: usize = 0;
            while j < scope.len()
                invariant
                    target@ == var@,
                    i < self.rc_tracked_vars@.len(),
                    *scope == self.rc_tracked_vars@[i as int],
                    j <= scope@.len(),
                    forall|b: int| 0 <= b < j ==> (#[trigger] scope@[b])@ != var@,
                decreases scope@.len() - j,
            {
                if scope[j].eq(&target) {
                    assert(self.rc_tracked_vars@[i as int]@[j as int]@ == var@);
                    return true;
                }
                j += 1;
            }
            i += 1;
        }
        false
    }
}

} // verus!

verus! {

/// `bs2` is `bs1` with its last block that has no terminator, if there is
/// one, made to jump to `target`.
pub open spec fn linked(bs2: Seq<MirBlock>, bs1: Seq<MirBlock>, target: String) -> bool {
    ||| (forall|j: int| 0 <= j < bs1.len() ==> (#[trigger] bs1[j]).terminator is Some) && bs2 == bs1
    ||| exists|j: int|
        0 <= j < bs1.len() && (#[trigger] bs1[j]).terminator is None && (forall|l: int|
            j < l < bs1.len() ==> (#[trigger] bs1[l]).terminator is Some) && bs2 == bs1.update(
            j,
            MirBlock { label: bs1[j].label, instrs: bs1[j].instrs, terminator: Some(MirInstr::Jump { target }) },
        )
}

/// The block has no terminator and is not labelled `target`.
pub open spec fn open_for(b: MirBlock, target: String) -> bool {
    b.terminator is None && b.label@ != target@
}

/// `bs2` is `bs1` with its last block that has no terminator and is not
/// labelled `target`, if there is one, made to jump to `target`.
pub open spec fn linked_to_new(bs2: Seq<MirBlock>, bs1: Seq<MirBlock>, target: String) -> bool {
    ||| (forall|j: int| 0 <= j < bs1.len() ==> !open_for(#[trigger] bs1[j], target)) && bs2 == bs1
    ||| exists|j: int|
        0 <= j < bs1.len() && open_for(#[trigger] bs1[j], target) && (forall|l: int|
            j < l < bs1.len() ==> !open_for(#[trigger] bs1[l], target)) && bs2 == bs1.update(
            j,
            MirBlock { label: bs1[j].label, instrs: bs1[j].instrs, terminator: Some(MirInstr::Jump { target }) },
        )
}

/// The functions of `a` and `b` have the same names, parameters and
/// return types, and all but the last are the same (the blocks of the last,
/// the function being built, may differ).
pub open spec fn same_headers(a: Seq<MirFunction>, b: Seq<MirFunction>) -> bool {
    &&& a.len() == b.len()
    &&& forall|i: int|
        0 <= i < a.len() ==> (#[trigger] a[i]).name == b[i].name && a[i].params == b[i].params && a[i].param_types
            == b[i].param_types && a[i].return_type == b[i].return_type
    &&& forall|i: int| 0 <= i < a.len() - 1 ==> #[trigger] a[i] == b[i]
}

impl MirBuilder {
    /// There is room to hand out `cost` more temporaries and blocks, and the
    /// temporaries' table is in order.
    pub open spec fn room_for(&self, cost: nat) -> bool {
        &&& self.tmp_counter + cost <= usize::MAX
        &&& self.block_counter + cost <= usize::MAX
        &&& self.table_inv()
    }

    /// `self` came from `other` by a lowering step costing at most `cost`:
    /// counters advanced by at most `cost`, the table in order, the loops
    /// and scopes as they were, the globals untouched, no function added.
    pub open spec fn steps_within(&self, other: &Self, cost: nat) -> bool {
        &&& other.tmp_counter <= self.tmp_counter <= other.tmp_counter + cost
        &&& other.block_counter <= self.block_counter <= other.block_counter + cost
        &&& self.table_inv()
        &&& self.loop_stack@ == other.loop_stack@
        &&& self.rc_tracked_vars@ == other.rc_tracked_vars@
        &&& self.program.globals == other.program.globals
        &&& same_headers(self.program.functions@, other.program.functions@)
        &&& self.program.is_main_entry == other.program.is_main_entry
    }

    /// `self` differs from `other` at most in the blocks of the functions.
    pub open spec fn same_but_blocks(&self, other: &Self) -> bool {
        &&& self.tmp_counter == other.tmp_counter
        &&& self.block_counter == other.block_counter
        &&& self.mir_symbol_table == other.mir_symbol_table
        &&& self.loop_stack == other.loop_stack
        &&& self.rc_tracked_vars == other.rc_tracked_vars
        &&& self.program.globals == other.program.globals
        &&& same_headers(self.program.functions@, other.program.functions@)
        &&& self.program.is_main_entry == other.program.is_main_entry
    }

    /// Appends a block to the function being built (the last one), if any.
    pub fn push_to_current(&mut self, b: MirBlock)
        ensures
            final(self).same_but_blocks(old(self)),
            old(self).program.functions@.len() > 0 ==> final(self).program.functions@.last().blocks@ == old(
                self,
            ).program.functions@.last().blocks@.push(b),
    {
        let n = self.program.functions.len();
        if n > 0 {
            self.program.functions[n - 1].blocks.push(b);
        }
    }

    /// Makes the last block of the current function that has no terminator
    /// jump to `target`.
    pub fn link_open_block(&mut self, target: &String)
        ensures
            final(self).same_but_blocks(old(self)),
            old(self).program.functions@.len() > 0 ==> linked(
                final(self).program.functions@.last().blocks@,
                old(self).program.functions@.last().blocks@,
                *target,
            ),
    {
        let n = self.program.functions.len();
        if n > 0 {
            let mut j = self.program.functions[n - 1].blocks.len();
            while j > 0
                invariant
                    n == self.program.functions@.len(),
                    n > 0,
                    j <= self.program.functions@[n - 1].blocks@.len(),
                    self.same_but_blocks(old(self)),
                    self.program.functions@[n - 1].blocks@ == old(self).program.functions@[n - 1].blocks@,
                    forall|l: int|
                        j <= l < old(self).program.functions@[n - 1].blocks@.len() ==> (#[trigger] old(
                            self,
                        ).program.functions@[n - 1].blocks@[l]).terminator is Some,
                decreases j,
            {
                if self.program.functions[n - 1].blocks[j - 1].terminator.is_none() {
                    self.program.functions[n - 1].blocks[j - 1].terminator = Some(MirInstr::Jump { target: target.clone() });
                    return;
                }
                j -= 1;
            }
        }
    }
}

impl MirBuilder {
    /// Makes the last block of the current function that has no terminator
    /// and is not labelled `target` jump to `target`.
    pub fn link_open_block_to_new(&mut self, target: &String)
        ensures
            final(self).same_but_blocks(old(self)),
            old(self).program.functions@.len() > 0 ==> linked_to_new(
                final(self).program.functions@.last().blocks@,
                old(self).program.functions@.last().blocks@,
                *target,
            ),
    {
        let n = self.program.functions.len();
        if n > 0 {
            let mut j = self.program.functions[n - 1].blocks.len();
            while j > 0
                invariant
                    n == self.program.functions@.len(),
                    n > 0,
                    j <= self.program.functions@[n - 1].blocks@.len(),
                    self.same_but_blocks(old(self)),
                    self.program.functions@[n - 1].blocks@ == old(self).program.functions@[n - 1].blocks@,
                    forall|l: int|
                        j <= l < old(self).program.functions@[n - 1].blocks@.len() ==> !open_for(
                            #[trigger] old(self).program.functions@[n - 1].blocks@[l],
                            *target,
                        ),
                decreases j,
            {
                let open = self.program.functions[n - 1].blocks[j - 1].terminator.is_none();
                if open && !self.program.functions[n - 1].blocks[j - 1].label.eq(target) {
                    self.program.functions[n - 1].blocks[j - 1].terminator = Some(MirInstr::Jump { target: target.clone() });
                    return;
                }
                j -= 1;
            }
        }
    }
}

} // verus!

verus! {

/// The top-level nodes that lower into a function of their own: function
/// declarations, and `if` and `for` outside any function.
pub open spec fn makes_function(n: AstNode) -> bool {
    n is FunctionDecl || n is ConditionalStmt || n is ForLoopStmt
}

/// How many functions lowering the top-level nodes adds.
pub open spec fn functions_made(nodes: Seq<AstNode>) -> nat
    decreases nodes.len(),
{
    if nodes.len() == 0 {
        0
    } else {
        functions_made(nodes.drop_last()) + if makes_function(nodes.last()) {
            1nat
        } else {
            0nat
        }
    }
}

/// Fewer nodes make no more functions.
pub proof fn lemma_functions_made_mono(nodes: Seq<AstNode>, a: int, b: int)
    requires
        0 <= a <= b <= nodes.len(),
    ensures
        functions_made(nodes.take(a)) <= functions_made(nodes.take(b)),
    decreases b - a,
{
    if a < b {
        lemma_functions_made_mono(nodes, a, b - 1);
        assert(nodes.take(b).drop_last() =~= nodes.take(b - 1));
    }
}

/// An upper bound on the temporaries and blocks lowering a top-level node takes.
pub open spec fn top_cost(n: AstNode) -> nat {
    match n {
        AstNode::LetDecl { value, pattern, .. } => expr_cost(*value) + let_pattern_cost(pattern),
        AstNode::FunctionDecl { body, .. } => fn_cost(body@),
        AstNode::StructDecl { fields, .. } => 1 + fields@.len(),
        AstNode::StringLiteral(_) => 1,
        AstNode::EnumDecl { variants, .. } => 2 * variants@.len(),
        AstNode::Assignment { value, .. } => expr_cost(*value),
        AstNode::Print { exprs } => exprs_cost(exprs@),
        AstNode::ConditionalStmt { .. } => stmt_cost(n) + 2,
        AstNode::ForLoopStmt { .. } => stmt_cost(n) + 2,
        AstNode::BinaryExpr { .. } => expr_cost(n),
        AstNode::FunctionCall { .. } => expr_cost(n),
        AstNode::ArrayLiteral(_) => expr_cost(n),
        AstNode::MapLiteral(_) => expr_cost(n),
        _ => 0,
    }
}

/// The sum of `top_cost` over a list.
pub open spec fn tops_cost(v: Seq<AstNode>) -> nat
    decreases v,
{
    if v.len() == 0 {
        0
    } else {
        tops_cost(v.drop_last()) + top_cost(v.last())
    }
}

pub proof fn lemma_tops_cost_prefix(v: Seq<AstNode>, i: int)
    requires
        0 <= i < v.len(),
    ensures
        tops_cost(v.take(i + 1)) == tops_cost(v.take(i)) + top_cost(v[i]),
        tops_cost(v.take(i + 1)) <= tops_cost(v),
    decreases v.len(),
{
    assert(v.take(i + 1).drop_last() =~= v.take(i));
    if i + 1 < v.len() {
        lemma_tops_cost_prefix(v.drop_last(), i);
        assert(v.drop_last().take(i + 1) =~= v.take(i + 1));
        assert(v.drop_last().take(i) =~= v.take(i));
    } else {
        assert(v.take(i + 1) =~= v);
    }
}

/// A top-level node lowers without failing (see `stmt_lowerable`).
pub open spec fn top_lowerable(n: AstNode, in_loop: bool) -> bool {
    match n {
        AstNode::LetDecl { value, .. } => lowerable(*value),
        AstNode::FunctionDecl { body, .. } => stmts_lowerable(body@, in_loop),
        AstNode::Assignment { value, .. } => lowerable(*value),
        AstNode::Print { exprs } => forall|i: int| 0 <= i < exprs.len() ==> lowerable(#[trigger] exprs@[i]),
        AstNode::ConditionalStmt { .. } => stmt_lowerable(n, in_loop),
        AstNode::ForLoopStmt { .. } => stmt_lowerable(n, in_loop),
        AstNode::BinaryExpr { .. } => lowerable(n),
        AstNode::FunctionCall { .. } => lowerable(n),
        AstNode::ArrayLiteral(_) => lowerable(n),
        AstNode::MapLiteral(_) => lowerable(n),
        _ => true,
    }
}

impl MirBuilder {
    /// The name of a function wrapping a global `if` or `for`:
    /// `__prefix_blocks_temps` with the current counts.
    fn create_temp_function(&self, name_prefix: &str) -> (r: String)
        ensures
            r@ == "__"@ + name_prefix@ + "_"@ + decimal(self.block_counter as nat) + "_"@ + decimal(
                self.tmp_counter as nat,
            ),
    {
        let mut s = String::from_str("__");
        s.append(name_prefix);
        s.append("_");
        s.append(usize_to_string(self.block_counter).as_str());
        s.append("_");
        s.append(usize_to_string(self.tmp_counter).as_str());
        s
    }

    /// A scratch block for instructions that go to the globals.
    fn temp_block() -> (b: MirBlock)
        ensures
            b.label@ == "temp"@,
            b.instrs@.len() == 0,
            b.terminator is None,
    {
        MirBlock { label: String::from_str("temp"), instrs: Vec::new(), terminator: None }
    }

    /// Appends instructions to the globals.
    fn extend_globals(&mut self, instrs: Vec<MirInstr>)
        ensures
            final(self).program.globals@ == old(self).program.globals@ + instrs@,
            final(self).program.functions == old(self).program.functions,
            final(self).program.is_main_entry == old(self).program.is_main_entry,
            final(self).tmp_counter == old(self).tmp_counter,
            final(self).block_counter == old(self).block_counter,
            final(self).mir_symbol_table == old(self).mir_symbol_table,
            final(self).loop_stack == old(self).loop_stack,
            final(self).rc_tracked_vars == old(self).rc_tracked_vars,
    {
        let mut v = instrs;
        let ghost start = self.program.globals@;
        let ghost all = v@;
        let total = v.len();
        let mut i: usize = 0;
        while v.len() > 0
            invariant
                all.len() == total,
                i <= all.len(),
                v@ == all.subrange(i as int, all.len() as int),
                self.program.globals@ == start + all.subrange(0, i as int),
                self.program.functions == old(self).program.functions,
                self.program.is_main_entry == old(self).program.is_main_entry,
                self.tmp_counter == old(self).tmp_counter,
                self.block_counter == old(self).block_counter,
                self.mir_symbol_table == old(self).mir_symbol_table,
                self.loop_stack == old(self).loop_stack,
                self.rc_tracked_vars == old(self).rc_tracked_vars,
            decreases v.len(),
        {
            let x = v.remove(0);
            self.program.globals.push(x);
            i += 1;
            assert(self.program.globals@ =~= start + all.subrange(0, i as int));
            assert(v@ =~= all.subrange(i as int, all.len() as int));
        }
        assert(all.subrange(0, all.len() as int) =~= all);
    }

    /// Lowers one top-level node (see `build_program`).
    fn build_top_node(&mut self, node: &AstNode)
        requires
            old(self).room_for(top_cost(*node)),
            top_lowerable(*node, old(self).loop_stack@.len() > 0),
        ensures
            old(self).tmp_counter <= final(self).tmp_counter <= old(self).tmp_counter + top_cost(*node),
            old(self).block_counter <= final(self).block_counter <= old(self).block_counter + top_cost(*node),
            final(self).table_inv(),
            final(self).loop_stack@ == old(self).loop_stack@,
            final(self).rc_tracked_vars@.len() == old(self).rc_tracked_vars@.len(),
            final(self).program.is_main_entry == old(self).program.is_main_entry,
            old(self).program.globals@.len() <= final(self).program.globals@.len(),
            final(self).program.globals@.subrange(0, old(self).program.globals@.len() as int)
                == old(self).program.globals@,
            final(self).program.functions@.len() == old(self).program.functions@.len() + if makes_function(*node) {
                1nat
            } else {
                0nat
            },
            forall|j: int|
                0 <= j < old(self).program.functions@.len() ==> same_header(
                    #[trigger] final(self).program.functions@[j],
                    old(self).program.functions@[j],
                ),
            forall|j: int|
                0 <= j < old(self).program.functions@.len() && (j < old(self).program.functions@.len() - 1 || !(
                *node is ConditionalStmt || *node is ForLoopStmt)) ==> #[trigger] final(self).program.functions@[j]
                    == old(self).program.functions@[j],
            makes_function(*node) ==> header_of(final(self).program.functions@[old(self).program.functions@.len() as int], *node),
            *node matches AstNode::FunctionDecl { return_type, body, .. } ==> (all_straight(body@) ==> straight_fn_blocks(
                final(self).program.functions@[old(self).program.functions@.len() as int].blocks@,
                body@,
                old(self).tmp_counter as nat,
                old(self).block_counter as nat,
                return_type is None,
            )),
    {
        let ghost g0 = self.program.globals@;
        let ghost fs0 = self.program.functions@;
        match node {
            AstNode::LetDecl { .. } => {
                let instrs = build_let_decl(self, node);
                self.extend_globals(instrs);
            },
            AstNode::FunctionDecl { .. } => {
                build_function_decl(self, node);
                assert forall|j: int| 0 <= j < fs0.len() implies #[trigger] self.program.functions@[j] == fs0[j] by {
                    assert(self.program.functions@.drop_last()[j] == self.program.functions@[j]);
                }
                assert forall|j: int| 0 <= j < fs0.len() implies same_header(#[trigger] self.program.functions@[j], fs0[j]) by {
                    assert(self.program.functions@[j] == fs0[j]);
                }
            },
            AstNode::Import { .. } => {},
            AstNode::StructDecl { name, fields } => {
                let tmp = self.next_tmp();
                let mut field_vals: Vec<(String, String)> = Vec::new();
                let mut k: usize = 0;
                let ghost s0 = *self;
                while k < fields.len()
                    invariant
                        *node == (AstNode::StructDecl { name: *name, fields: *fields }),
                        k <= fields.len(),
                        s0.tmp_counter + fields@.len() <= usize::MAX,
                        self.tmp_counter == s0.tmp_counter + k,
                        self.block_counter == s0.block_counter,
                        self.same_structure(&s0),
                        self.mir_symbol_table == s0.mir_symbol_table,
                    decreases fields.len() - k,
                {
                    let val_tmp = self.next_tmp();
                    field_vals.push((fields[k].0.clone(), val_tmp));
                    k += 1;
                }
                self.program.globals.push(
                    MirInstr::StructInit { name: tmp, struct_name: name.clone(), fields: field_vals },
                );
            },
            AstNode::StringLiteral(value) => {
                let tmp = self.next_tmp();
                self.program.globals.push(MirInstr::ConstString { name: tmp.clone(), value: value.clone() });
                let mut gname = String::from_str("global_str_");
                gname.append(usize_to_string(self.tmp_counter - 1).as_str());
                self.program.globals.push(MirInstr::Assign { name: gname, value: tmp, mutable: false });
            },
            AstNode::EnumDecl { name, variants } => {
                let mut k: usize = 0;
                let ghost s0 = *self;
                while k < variants.len()
                    invariant
                        *node == (AstNode::EnumDecl { name: *name, variants: *variants }),
                        k <= variants.len(),
                        s0.tmp_counter + 2 * variants@.len() <= usize::MAX,
                        s0.tmp_counter <= self.tmp_counter <= s0.tmp_counter + 2 * k,
                        self.block_counter == s0.block_counter,
                        self.mir_symbol_table == s0.mir_symbol_table,
                        self.loop_stack == s0.loop_stack,
                        self.rc_tracked_vars == s0.rc_tracked_vars,
                        self.program.functions == s0.program.functions,
                        self.program.is_main_entry == s0.program.is_main_entry,
                        s0.program.globals@.len() <= self.program.globals@.len(),
                        self.program.globals@.subrange(0, s0.program.globals@.len() as int) == s0.program.globals@,
                    decreases variants.len() - k,
                {
                    let ghost gk = self.program.globals@;
                    let tmp = self.next_tmp();
                    let value_tmp = match &variants[k].1 {
                        Some(_) => Some(self.next_tmp()),
                        None => None,
                    };
                    self.program.globals.push(
                        MirInstr::EnumInit {
                            name: tmp.clone(),
                            enum_name: name.clone(),
                            variant: variants[k].0.clone(),
                            value: value_tmp,
                        },
                    );
                    let mut gname = String::from_str("global_enum_");
                    gname.append(name.as_str());
                    gname.append("_");
                    gname.append(variants[k].0.as_str());
                    self.program.globals.push(MirInstr::Assign { name: gname, value: tmp, mutable: false });
                    assert(self.program.globals@.subrange(0, s0.program.globals@.len() as int) =~= gk.subrange(
                        0,
                        s0.program.globals@.len() as int,
                    ));
                    k += 1;
                }
            },
            AstNode::Assignment { pattern, value } => {
                let mut temp_block = Self::temp_block();
                let value_tmp = build_expression(self, value, &mut temp_block);
                self.extend_globals(temp_block.instrs);
                if let Pattern::Identifier(name) = pattern {
                    self.program.globals.push(MirInstr::Assign { name: name.clone(), value: value_tmp, mutable: true });
                }
            },
            AstNode::Print { exprs } => {
                let mut temp_block = Self::temp_block();
                let mut print_vals: Vec<String> = Vec::new();
                let mut k: usize = 0;
                let ghost s0 = *self;
                proof {
                    assert(exprs@.take(0) =~= Seq::<AstNode>::empty());
                }
                while k < exprs.len()
                    invariant
                        *node == (AstNode::Print { exprs: *exprs }),
                        forall|i: int| 0 <= i < exprs.len() ==> lowerable(#[trigger] exprs@[i]),
                        s0.room_for(exprs_cost(exprs@)),
                        k <= exprs.len(),
                        self.tmp_counter == s0.tmp_counter + exprs_cost(exprs@.take(k as int)),
                        self.block_counter == s0.block_counter,
                        self.same_structure(&s0),
                        self.table_inv(),
                    decreases exprs.len() - k,
                {
                    proof {
                        crate::mir::expressions::lemma_exprs_cost_prefix(exprs@, k as int);
                    }
                    let t = build_expression(self, &exprs[k], &mut temp_block);
                    print_vals.push(t);
                    k += 1;
                }
                proof {
                    assert(exprs@.take(exprs.len() as int) =~= exprs@);
                }
                self.extend_globals(temp_block.instrs);
                self.program.globals.push(MirInstr::Print { values: print_vals });
            },
            AstNode::ConditionalStmt { .. } | AstNode::ForLoopStmt { .. } => {
                let is_if = matches!(node, AstNode::ConditionalStmt { .. });
                let func_name = if is_if {
                    self.create_temp_function("if")
                } else {
                    self.create_temp_function("loop")
                };
                let block_label = self.next_block();
                let mut block = MirBlock { label: block_label, instrs: Vec::new(), terminator: None };
                build_statement(self, node, &mut block);
                let mut blocks: Vec<MirBlock> = Vec::new();
                blocks.push(block);
                let temp_func = MirFunction {
                    name: func_name.clone(),
                    params: Vec::new(),
                    param_types: Vec::new(),
                    return_type: None,
                    blocks,
                };
                self.program.functions.push(temp_func);
                let call_tmp = self.next_tmp();
                self.program.globals.push(MirInstr::Call { dest: vec![call_tmp], func: func_name, args: Vec::new() });
            },
            AstNode::BinaryExpr { .. } | AstNode::FunctionCall { .. } => {
                let mut temp_block = Self::temp_block();
                let expr_tmp = build_expression(self, node, &mut temp_block);
                self.extend_globals(temp_block.instrs);
                let mut gname = String::from_str("__global_expr_");
                gname.append(usize_to_string(self.tmp_counter - 1).as_str());
                self.program.globals.push(MirInstr::Assign { name: gname, value: expr_tmp, mutable: false });
            },
            AstNode::ArrayLiteral(_) | AstNode::MapLiteral(_) => {
                let mut temp_block = Self::temp_block();
                let collection_tmp = build_nested_collection(self, node, &mut temp_block);
                self.extend_globals(temp_block.instrs);
                let mut gname = String::from_str("__global_collection_");
                gname.append(usize_to_string(self.tmp_counter - 1).as_str());
                self.program.globals.push(MirInstr::Assign { name: gname, value: collection_tmp, mutable: false });
            },
            _ => {},
        }
        assert(self.program.globals@.subrange(0, g0.len() as int) =~= g0);
    }

    /// Lowers a program's top-level nodes. Functions become functions of the
    /// program; a global `let`, assignment, `print`, expression or
    /// collection literal adds its instructions to the globals (an
    /// expression or collection is assigned to a generated global name);
    /// struct and enum declarations add placeholder instances; a string
    /// literal adds a named constant; a global `if` or `for` is lowered into
    /// a function of its own that the globals call. Imports lower to nothing.
    /// Finally the global scope's reference-counted variables are released.
    #[verifier::rlimit(40)]
    pub fn build_program(&mut self, nodes: &[AstNode])
        requires
            old(self).room_for(tops_cost(nodes@)),
            forall|i: int| 0 <= i < nodes@.len() ==> top_lowerable(#[trigger] nodes@[i], old(self).loop_stack@.len() > 0),
        ensures
            old(self).tmp_counter <= final(self).tmp_counter <= old(self).tmp_counter + tops_cost(nodes@),
            old(self).block_counter <= final(self).block_counter <= old(self).block_counter + tops_cost(nodes@),
            final(self).table_inv(),
            final(self).loop_stack@ == old(self).loop_stack@,
            final(self).rc_tracked_vars@.len() == old(self).rc_tracked_vars@.len(),
            final(self).program.is_main_entry == old(self).program.is_main_entry,
            old(self).program.functions@.len() <= final(self).program.functions@.len(),
            old(self).program.globals@.len() <= final(self).program.globals@.len(),
            final(self).program.globals@.subrange(0, old(self).program.globals@.len() as int)
                == old(self).program.globals@,
            final(self).program.functions@.len() == old(self).program.functions@.len() + functions_made(nodes@),
            forall|j: int|
                0 <= j < nodes@.len() ==> (#[trigger] nodes@[j] is FunctionDecl ==> header_of(
                    final(self).program.functions@[(old(self).program.functions@.len() + functions_made(nodes@.take(j))) as int],
                    nodes@[j],
                )),
            forall|j: int|
                0 <= j < nodes@.len() && #[trigger] nodes@[j] is FunctionDecl && no_global_branch_between(
                    nodes@,
                    j,
                    nodes@.len() as int,
                ) ==> lowered_straight(
                    final(self).program.functions@[(old(self).program.functions@.len() + functions_made(nodes@.take(j))) as int],
                    nodes@[j],
                ),
            final(self).rc_tracked_vars@.len() > 0 ==> {
                let vars = final(self).rc_tracked_vars@.last()@;
                let g = final(self).program.globals@;
                &&& g.len() >= vars.len()
                &&& forall|t: int|
                    0 <= t < vars.len() ==> (#[trigger] g[g.len() - vars.len() + t] matches MirInstr::DecRef { value }
                        && value@ == vars[vars.len() - 1 - t]@)
            },
    {
        let ghost start = *self;
        let mut i: usize = 0;
        proof {
            assert(nodes@.take(0) =~= Seq::<AstNode>::empty());
            assert(self.program.globals@.subrange(0, start.program.globals@.len() as int) =~= start.program.globals@);
        }
        while i < nodes.len()
            invariant
                start == *old(self),
                start.room_for(tops_cost(nodes@)),
                forall|i: int| 0 <= i < nodes@.len() ==> top_lowerable(#[trigger] nodes@[i], start.loop_stack@.len() > 0),
                i <= nodes.len(),
                start.tmp_counter <= self.tmp_counter <= start.tmp_counter + tops_cost(nodes@.take(i as int)),
                start.block_counter <= self.block_counter <= start.block_counter + tops_cost(nodes@.take(i as int)),
                self.table_inv(),
                self.loop_stack@ == start.loop_stack@,
                self.rc_tracked_vars@.len() == start.rc_tracked_vars@.len(),
                self.program.is_main_entry == start.program.is_main_entry,
                start.program.functions@.len() <= self.program.functions@.len(),
                start.program.globals@.len() <= self.program.globals@.len(),
                self.program.globals@.subrange(0, start.program.globals@.len() as int) == start.program.globals@,
                self.program.functions@.len() == start.program.functions@.len() + functions_made(nodes@.take(i as int)),
                forall|j: int|
                    0 <= j < i ==> (#[trigger] nodes@[j] is FunctionDecl ==> header_of(
                        self.program.functions@[(start.program.functions@.len() + functions_made(nodes@.take(j))) as int],
                        nodes@[j],
                    )),
                forall|j: int|
                    0 <= j < i && #[trigger] nodes@[j] is FunctionDecl && no_global_branch_between(nodes@, j, i as int)
                        ==> lowered_straight(
                        self.program.functions@[(start.program.functions@.len() + functions_made(nodes@.take(j))) as int],
                        nodes@[j],
                    ),
            decreases nodes.len() - i,
        {
            proof {
                lemma_tops_cost_prefix(nodes@, i as int);
                assert(nodes@.take(i + 1).drop_last() =~= nodes@.take(i as int));
            }
            let ghost g0 = self.program.globals@;
            let ghost fs0 = self.program.functions@;
            let ghost pre_tmp = self.tmp_counter;
            let ghost pre_block = self.block_counter;
            self.build_top_node(&nodes[i]);
            proof {
                assert forall|j: int| 0 <= j < i + 1 implies (#[trigger] nodes@[j] is FunctionDecl ==> header_of(
                    self.program.functions@[(start.program.functions@.len() + functions_made(nodes@.take(j))) as int],
                    nodes@[j],
                )) by {
                    if j < i && nodes@[j] is FunctionDecl {
                        lemma_functions_made_mono(nodes@, j + 1, i as int);
                        assert(nodes@.take(j + 1).drop_last() =~= nodes@.take(j));
                    }
                }
                assert forall|j: int|
                    0 <= j < i + 1 && #[trigger] nodes@[j] is FunctionDecl && no_global_branch_between(nodes@, j, i + 1)
                        implies lowered_straight(
                        self.program.functions@[(start.program.functions@.len() + functions_made(nodes@.take(j))) as int],
                        nodes@[j],
                    ) by {
                    let idx = (start.program.functions@.len() + functions_made(nodes@.take(j))) as int;
                    if j < i {
                        lemma_functions_made_mono(nodes@, j + 1, i as int);
                        assert(nodes@.take(j + 1).drop_last() =~= nodes@.take(j));
                        assert(no_global_branch_between(nodes@, j, i as int));
                        assert(!(nodes@[i as int] is ConditionalStmt || nodes@[i as int] is ForLoopStmt));
                        assert(self.program.functions@[idx] == fs0[idx]);
                    } else {
                        assert(idx == fs0.len());
                        if let AstNode::FunctionDecl { return_type, body, .. } = nodes@[j] {
                            if all_straight(body@) {
                                assert(straight_fn_blocks(
                                    self.program.functions@[idx].blocks@,
                                    body@,
                                    pre_tmp as nat,
                                    pre_block as nat,
                                    return_type is None,
                                ));
                            }
                        }
                    }
                }
            }
            assert(self.program.globals@.subrange(0, start.program.globals@.len() as int) =~= g0.subrange(
                0,
                start.program.globals@.len() as int,
            ));
            i += 1;
        }
        proof {
            assert(nodes@.take(nodes@.len() as int) =~= nodes@);
        }
        let n = self.rc_tracked_vars.len();
        if n > 0 {
            let mut temp = Self::temp_block();
            let ghost vars = self.rc_tracked_vars@[n - 1]@;
            let len = self.rc_tracked_vars[n - 1].len();
            let mut j = len;
            while j > 0
                invariant
                    n == self.rc_tracked_vars@.len(),
                    n > 0,
                    vars == self.rc_tracked_vars@[n - 1]@,
                    len == vars.len(),
                    j <= len,
                    temp.instrs@.len() == len - j,
                    forall|t: int|
                        0 <= t < len - j ==> (#[trigger] temp.instrs@[t] matches MirInstr::DecRef { value } && value@
                            == vars[len - 1 - t]@),
                decreases j,
            {
                let name = self.rc_tracked_vars[n - 1][j - 1].clone();
                temp.instrs.push(MirInstr::DecRef { value: name });
                j -= 1;
            }
            self.extend_globals(temp.instrs);
        }
    }
}

} // verus!

verus! {

/// For the declaration `n` of a function whose body is straight-line, the
/// function `f` holds the body's lowering (see `straight_fn_blocks`), from
/// some temporary and block number on.
pub open spec fn lowered_straight(f: MirFunction, n: AstNode) -> bool {
    match n {
        AstNode::FunctionDecl { return_type, body, .. } => all_straight(body@) ==> exists|c: nat, k: nat|
            #[trigger] straight_fn_blocks(f.blocks@, body@, c, k, return_type is None),
        _ => true,
    }
}

/// No node of `nodes` between `j` and `i` (both excluded) is a global `if`
/// or `for`, whose lowering adds blocks to the last function.
pub open spec fn no_global_branch_between(nodes: Seq<AstNode>, j: int, i: int) -> bool {
    forall|k: int| j < k < i ==> !(#[trigger] nodes[k] is ConditionalStmt || nodes[k] is ForLoopStmt)
}

/// Two functions agree on their name, parameters and types.
pub open spec fn same_header(a: MirFunction, b: MirFunction) -> bool {
    &&& a.name == b.name
    &&& a.params == b.params
    &&& a.param_types == b.param_types
    &&& a.return_type == b.return_type
}

/// The function `f` has the name, parameter names and types and return type
/// of the function declaration `n` (types as their text, see
/// `type_text_of`); for another node, nothing is required.
pub open spec fn header_of(f: MirFunction, n: AstNode) -> bool {
    match n {
        AstNode::FunctionDecl { name, params, return_type, .. } => {
            &&& f.name@ == name@
            &&& f.params@.len() == params@.len()
            &&& forall|i: int| 0 <= i < params@.len() ==> (#[trigger] f.params@[i])@ == params@[i].0@
            &&& f.param_types@.len() == params@.len()
            &&& forall|i: int| 0 <= i < params@.len() ==> type_text_of(#[trigger] f.param_types@[i]) == opt_type_debug(params@[i].1)
            &&& type_text_of(f.return_type) == opt_type_debug(return_type)
        },
        _ => true,
    }
}

/// Whether some block's terminator jumps to `label`.
pub open spec fn jumps_to(blocks: Seq<MirBlock>, label: Seq<char>) -> bool {
    exists|i: int| 0 <= i < blocks.len() && #[trigger] terminator_targets(blocks[i].terminator, label)
}

/// Whether a terminator jumps to `label`.
pub open spec fn terminator_targets(t: Option<MirInstr>, label: Seq<char>) -> bool {
    match t {
        Some(MirInstr::Jump { target }) => target@ == label,
        Some(MirInstr::CondJump { then_block, else_block, .. }) => then_block@ == label || else_block@ == label,
        _ => false,
    }
}

/// A block survives finalization when it has instructions, a terminator,
/// or a jump to it.
pub open spec fn kept_block(b: MirBlock, all: Seq<MirBlock>) -> bool {
    b.instrs@.len() > 0 || b.terminator is Some || jumps_to(all, b.label@)
}

/// The name a global constant or instance defines, for the kinds
/// finalization deduplicates keeping the first (assignments are merged
/// keeping the last, see `last_assign`).
pub open spec fn def_name(i: MirInstr) -> Option<Seq<char>> {
    match i {
        MirInstr::ConstString { name, .. } => Some(name@),
        MirInstr::StructInit { name, .. } => Some(name@),
        MirInstr::EnumInit { name, .. } => Some(name@),
        _ => None,
    }
}

/// The elements of `s` whose flag is set, in order.
pub open spec fn select<T>(s: Seq<T>, flags: Seq<bool>) -> Seq<T>
    decreases s.len(),
{
    if s.len() == 0 || flags.len() == 0 {
        Seq::empty()
    } else {
        let rest = select(s.drop_last(), flags.drop_last());
        if flags.last() {
            rest.push(s.last())
        } else {
            rest
        }
    }
}

/// The instruction at `i` is the first to define its name (or defines none).
pub open spec fn first_def(s: Seq<MirInstr>, i: int) -> bool {
    def_name(s[i]) is None || !exists|j: int| 0 <= j < i && #[trigger] def_name(s[j]) == def_name(s[i])
}

/// The instruction at `i` is not an assignment to a name assigned again
/// later.
pub open spec fn last_assign(s: Seq<MirInstr>, i: int) -> bool {
    !(s[i] is Assign) || !exists|j: int|
        i < j < s.len() && (#[trigger] s[j]) is Assign && s[j]->Assign_name@ == s[i]->Assign_name@
}

/// The flags of the blocks that survive finalization.
pub open spec fn block_flags(all: Seq<MirBlock>) -> Seq<bool> {
    Seq::new(all.len(), |i: int| kept_block(all[i], all))
}

/// The flags of the globals that survive deduplication.
pub open spec fn def_flags(s: Seq<MirInstr>) -> Seq<bool> {
    Seq::new(s.len(), |i: int| first_def(s, i))
}

/// The flags of the globals that survive the merge of assignments.
pub open spec fn assign_flags(s: Seq<MirInstr>) -> Seq<bool> {
    Seq::new(s.len(), |i: int| last_assign(s, i))
}

/// Keeps the elements whose flag is set, in order.
fn keep_flagged<T>(v: Vec<T>, flags: &Vec<bool>) -> (r: Vec<T>)
    requires
        flags@.len() == v@.len(),
    ensures
        r@ == select(v@, flags@),
{
    let ghost all = v@;
    let mut v = v;
    let mut out: Vec<T> = Vec::new();
    let total = v.len();
    let mut i: usize = 0;
    proof {
        assert(all.take(0) =~= Seq::<T>::empty());
        assert(select(all.take(0), flags@.take(0)) =~= Seq::<T>::empty());
    }
    while i < total
        invariant
            total == all.len(),
            flags@.len() == total,
            i <= total,
            v@ == all.subrange(i as int, total as int),
            out@ == select(all.take(i as int), flags@.take(i as int)),
        decreases total - i,
    {
        let x = v.remove(0);
        proof {
            assert(all.take(i + 1).drop_last() =~= all.take(i as int));
            assert(flags@.take(i + 1).drop_last() =~= flags@.take(i as int));
            assert(all.take(i + 1).last() == all[i as int]);
            assert(flags@.take(i + 1).last() == flags@[i as int]);
        }
        if flags[i] {
            out.push(x);
        }
        i += 1;
        assert(v@ =~= all.subrange(i as int, total as int));
    }
    proof {
        assert(all.take(total as int) =~= all);
        assert(flags@.take(total as int) =~= flags@);
    }
    out
}

/// Whether a terminator jumps to `label` (see `terminator_targets`).
fn targets(t: &Option<MirInstr>, label: &String) -> (r: bool)
    ensures
        r == terminator_targets(*t, label@),
{
    match t {
        Some(MirInstr::Jump { target }) => target.eq(label),
        Some(MirInstr::CondJump { then_block, else_block, .. }) => then_block.eq(label) || else_block.eq(label),
        _ => false,
    }
}

/// The flags of the blocks that survive finalization (see `kept_block`).
fn compute_block_flags(blocks: &Vec<MirBlock>) -> (r: Vec<bool>)
    ensures
        r@ == block_flags(blocks@),
{
    let mut flags: Vec<bool> = Vec::new();
    let mut i: usize = 0;
    while i < blocks.len()
        invariant
            i <= blocks.len(),
            flags@.len() == i,
            forall|j: int| 0 <= j < i ==> flags@[j] == kept_block(blocks@[j], blocks@),
        decreases blocks.len() - i,
    {
        let mut referenced = false;
        let mut k: usize = 0;
        while k < blocks.len()
            invariant
                i < blocks.len(),
                k <= blocks.len(),
                referenced == exists|m: int| 0 <= m < k && #[trigger] terminator_targets(blocks@[m].terminator, blocks@[i as int].label@),
            decreases blocks.len() - k,
        {
            if targets(&blocks[k].terminator, &blocks[i].label) {
                referenced = true;
            }
            k += 1;
        }
        flags.push(blocks[i].instrs.len() > 0 || blocks[i].terminator.is_some() || referenced);
        i += 1;
    }
    assert(flags@ =~= block_flags(blocks@));
    flags
}

/// The name a global instruction defines (see `def_name`).
fn def_name_of(i: &MirInstr) -> (r: Option<&String>)
    ensures
        r matches Some(n) ==> def_name(*i) == Some(n@),
        r is None ==> def_name(*i) is None,
{
    match i {
        MirInstr::ConstString { name, .. } => Some(name),
        MirInstr::StructInit { name, .. } => Some(name),
        MirInstr::EnumInit { name, .. } => Some(name),
        _ => None,
    }
}

/// The flags of the first definitions of each name (see `first_def`).
fn compute_def_flags(s: &Vec<MirInstr>) -> (r: Vec<bool>)
    ensures
        r@ == def_flags(s@),
{
    let mut flags: Vec<bool> = Vec::new();
    let mut i: usize = 0;
    while i < s.len()
        invariant
            i <= s.len(),
            flags@.len() == i,
            forall|j: int| 0 <= j < i ==> flags@[j] == first_def(s@, j),
        decreases s.len() - i,
    {
        let keep = match def_name_of(&s[i]) {
            None => true,
            Some(n) => {
                let mut seen = false;
                let mut k: usize = 0;
                while k < i
                    invariant
                        i < s.len(),
                        k <= i,
                        def_name(s@[i as int]) == Some(n@),
                        seen == exists|j: int| 0 <= j < k && #[trigger] def_name(s@[j]) == def_name(s@[i as int]),
                    decreases i - k,
                {
                    match def_name_of(&s[k]) {
                        Some(m) => {
                            if m.eq(n) {
                                seen = true;
                            }
                        },
                        None => {},
                    }
                    k += 1;
                }
                !seen
            },
        };
        flags.push(keep);
        i += 1;
    }
    assert(flags@ =~= def_flags(s@));
    flags
}

/// The flags of the assignments to names not assigned again later (see
/// `last_assign`).
fn compute_assign_flags(s: &Vec<MirInstr>) -> (r: Vec<bool>)
    ensures
        r@ == assign_flags(s@),
{
    let mut flags: Vec<bool> = Vec::new();
    let mut i: usize = 0;
    while i < s.len()
        invariant
            i <= s.len(),
            flags@.len() == i,
            forall|j: int| 0 <= j < i ==> flags@[j] == last_assign(s@, j),
        decreases s.len() - i,
    {
        let keep = match &s[i] {
            MirInstr::Assign { name, .. } => {
                let mut seen = false;
                let mut k: usize = i + 1;
                while k < s.len()
                    invariant
                        i < s.len(),
                        i < k <= s.len(),
                        s@[i as int] is Assign,
                        s@[i as int]->Assign_name@ == name@,
                        seen == exists|j: int|
                            i < j < k && (#[trigger] s@[j]) is Assign && s@[j]->Assign_name@ == name@,
                    decreases s.len() - k,
                {
                    if let MirInstr::Assign { name: m, .. } = &s[k] {
                        if m.eq(name) {
                            seen = true;
                        }
                    }
                    k += 1;
                }
                !seen
            },
            _ => true,
        };
        flags.push(keep);
        i += 1;
    }
    assert(flags@ =~= assign_flags(s@));
    flags
}

impl MirBuilder {
    /// Cleans up the lowered program: drops the blocks that have neither
    /// instructions nor a terminator and that no jump targets; drops every
    /// global string constant, struct or enum instance of a name defined
    /// before; then merges the assignments to one name, keeping the last.
    pub fn finalize(&mut self)
        ensures
            final(self).program.functions@.len() == old(self).program.functions@.len(),
            forall|f: int|
                0 <= f < old(self).program.functions@.len() ==> {
                    let a = old(self).program.functions@[f];
                    let b = #[trigger] final(self).program.functions@[f];
                    &&& b.name == a.name
                    &&& b.params == a.params
                    &&& b.param_types == a.param_types
                    &&& b.return_type == a.return_type
                    &&& b.blocks@ == finalized_blocks(a.blocks@)
                },
            final(self).program.globals@ == finalized_globals(old(self).program.globals@),
            final(self).program.is_main_entry == old(self).program.is_main_entry,
            final(self).tmp_counter == old(self).tmp_counter,
            final(self).block_counter == old(self).block_counter,
            final(self).loop_stack == old(self).loop_stack,
            final(self).rc_tracked_vars == old(self).rc_tracked_vars,
            final(self).mir_symbol_table == old(self).mir_symbol_table,
    {
        let mut f: usize = 0;
        while f < self.program.functions.len()
            invariant
                f <= self.program.functions@.len(),
                self.program.functions@.len() == old(self).program.functions@.len(),
                forall|g: int|
                    0 <= g < self.program.functions@.len() ==> {
                        let a = old(self).program.functions@[g];
                        let b = #[trigger] self.program.functions@[g];
                        &&& b.name == a.name
                        &&& b.params == a.params
                        &&& b.param_types == a.param_types
                        &&& b.return_type == a.return_type
                        &&& (g < f ==> b.blocks@ == select(a.blocks@, block_flags(a.blocks@)))
                        &&& (g >= f ==> b.blocks == a.blocks)
                    },
                self.program.globals == old(self).program.globals,
                self.program.is_main_entry == old(self).program.is_main_entry,
                self.tmp_counter == old(self).tmp_counter,
                self.block_counter == old(self).block_counter,
                self.loop_stack == old(self).loop_stack,
                self.rc_tracked_vars == old(self).rc_tracked_vars,
                self.mir_symbol_table == old(self).mir_symbol_table,
            decreases self.program.functions@.len() - f,
        {
            let flags = compute_block_flags(&self.program.functions[f].blocks);
            let mut blocks: Vec<MirBlock> = Vec::new();
            std::mem::swap(&mut blocks, &mut self.program.functions[f].blocks);
            let kept = keep_flagged(blocks, &flags);
            self.program.functions[f].blocks = kept;
            f += 1;
        }
        let mut globals: Vec<MirInstr> = Vec::new();
        std::mem::swap(&mut globals, &mut self.program.globals);
        let flags = compute_def_flags(&globals);
        let deduped = keep_flagged(globals, &flags);
        let flags2 = compute_assign_flags(&deduped);
        let merged = keep_flagged(deduped, &flags2);
        self.program.globals = merged;
    }
}

} // verus!
