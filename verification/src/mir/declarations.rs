//! Lowering of declarations: global `let`s and functions.
use crate::mir::builder::{block_name, decrefs, lemma_decrefs_all, same_headers, tmp_name, MirBuilder};
use crate::mir::expressions::{
    build_expression, emits, expr_cost, extends, instr_count, lemma_emits_len, lowerable, result_name, tmp_like,
};
use crate::mir::mir::{MirBlock, MirFunction, MirInstr};
use crate::mir::statements::{
    all_straight, build_statement, named_count, stmt_cost, stmt_emits, stmt_lowerable, stmts_cost, stmts_emit, stmts_lowerable,
    straight_line,
};
use crate::parser::ast::{AstNode, Pattern, TypeNode};
use crate::text::{i32_text, joined, parses_as_i32};
use vstd::prelude::*;
use vstd::string::StringExecFns;

verus! {

broadcast use vstd::std_specs::vec::group_vec_axioms;

/// The `Debug` text of a type: `Int`, `Array(Int)`, `Map(String, Int)`,
/// `Tuple([Int, Bool])`, `Struct("P")`, `Range(Int, Int, true)`, ...
pub open spec fn type_debug(t: TypeNode) -> Seq<char>
    decreases t, 0nat,
{
    match t {
        TypeNode::Int => "Int"@,
        TypeNode::Float => "Float"@,
        TypeNode::String => "String"@,
        TypeNode::Bool => "Bool"@,
        TypeNode::Void => "Void"@,
        TypeNode::Array(inner) => "Array("@ + type_debug(*inner) + ")"@,
        TypeNode::MapOf(k, v) => "Map("@ + type_debug(*k) + ", "@ + type_debug(*v) + ")"@,
        TypeNode::Tuple(ts) => {
            proof {
                assert(decreases_to!(t => ts));
                assert(decreases_to!(ts => ts@));
            }
            "Tuple(["@ + joined(types_debug(ts@, ts@.len()), ", "@) + "])"@
        },
        TypeNode::Struct(name, _) => "Struct(\""@ + name@ + "\")"@,
        TypeNode::Enum(name, _) => "Enum(\""@ + name@ + "\")"@,
        TypeNode::Range(a, b, inclusive) => "Range("@ + type_debug(*a) + ", "@ + type_debug(*b) + if inclusive {
            ", true)"@
        } else {
            ", false)"@
        },
        TypeNode::TypeRef(name) => "TypeRef(\""@ + name@ + "\")"@,
    }
}

/// The `Debug` texts of the first `n` types of `ts`.
pub open spec fn types_debug(ts: Seq<TypeNode>, n: nat) -> Seq<Seq<char>>
    decreases ts, n,
{
    if n == 0 || n > ts.len() {
        Seq::empty()
    } else {
        types_debug(ts, (n - 1) as nat).push(type_debug(ts[n - 1]))
    }
}

/// The text a type is written as in a lowered function's signature, in the
/// form Rust's `Debug` gives it (`Int`, `Array(Int)`, `Map(String, Int)`,
/// `Tuple([Int, Bool])`, ...).
pub fn type_debug_text(t: &TypeNode) -> (r: String)
    ensures
        r@ == type_debug(*t),
    decreases t,
{
    match t {
        TypeNode::Int => String::from_str("Int"),
        TypeNode::Float => String::from_str("Float"),
        TypeNode::String => String::from_str("String"),
        TypeNode::Bool => String::from_str("Bool"),
        TypeNode::Void => String::from_str("Void"),
        TypeNode::Array(inner) => {
            let mut s = String::from_str("Array(");
            s.append(type_debug_text(inner).as_str());
            s.append(")");
            s
        },
        TypeNode::MapOf(k, v) => {
            let mut s = String::from_str("Map(");
            s.append(type_debug_text(k).as_str());
            s.append(", ");
            s.append(type_debug_text(v).as_str());
            s.append(")");
            s
        },
        TypeNode::Tuple(ts) => {
            let mut s = String::from_str("Tuple([");
            let mut i: usize = 0;
            while i < ts.len()
                invariant
                    *t == TypeNode::Tuple(*ts),
                    i <= ts.len(),
                    types_debug(ts@, i as nat).len() == i,
                    s@ == "Tuple(["@ + joined(types_debug(ts@, i as nat), ", "@),
                decreases ts.len() - i,
            {
                assert(decreases_to!(*ts => (*ts)[i as int]));
                assert(t->Tuple_0 == *ts);
                assert(decreases_to!(*t => t->Tuple_0));
                let ghost prev = types_debug(ts@, i as nat);
                if i > 0 {
                    s.append(", ");
                }
                s.append(type_debug_text(&ts[i]).as_str());
                i += 1;
                assert(types_debug(ts@, i as nat) == prev.push(type_debug(ts@[i - 1])));
                assert(types_debug(ts@, i as nat).drop_last() =~= prev);
            }
            s.append("])");
            s
        },
        TypeNode::Struct(name, _) => {
            let mut s = String::from_str("Struct(\"");
            s.append(name.as_str());
            s.append("\")");
            s
        },
        TypeNode::Enum(name, _) => {
            let mut s = String::from_str("Enum(\"");
            s.append(name.as_str());
            s.append("\")");
            s
        },
        TypeNode::Range(a, b, inclusive) => {
            let mut s = String::from_str("Range(");
            s.append(type_debug_text(a).as_str());
            s.append(", ");
            s.append(type_debug_text(b).as_str());
            if *inclusive {
                s.append(", true)");
            } else {
                s.append(", false)");
            }
            s
        },
        TypeNode::TypeRef(name) => {
            let mut s = String::from_str("TypeRef(\"");
            s.append(name.as_str());
            s.append("\")");
            s
        },
    }
}

/// A declared type whose values are reference counted: strings, arrays, maps.
pub open spec fn rc_annotation(t: Option<TypeNode>) -> bool {
    match t {
        Some(TypeNode::String) => true,
        Some(TypeNode::Array(_)) => true,
        Some(TypeNode::MapOf(_, _)) => true,
        _ => false,
    }
}

/// A `let` whose value is an existing variable copies it (temporaries,
/// integer literals' text and `true`/`false` are new values).
pub open spec fn copies_variable(value: AstNode) -> bool {
    match value {
        AstNode::Identifier(v) => !tmp_like(v@) && !i32_text(v@) && v@ != "true"@ && v@ != "false"@,
        _ => false,
    }
}

/// The temporaries a `let`'s pattern takes: one per named tuple element.
pub open spec fn let_pattern_cost(p: Pattern) -> nat {
    match p {
        Pattern::Tuple(ps) => ps@.len(),
        _ => 0,
    }
}

/// `s` is what binding `value` to the first `n` elements of a global
/// tuple pattern appends, temporaries from `c`: for each named element, an
/// extraction into a fresh temporary, an assignment from it, and, when the
/// declaration is marked reference counted, an `IncRef` of the name.
pub open spec fn global_binds_tuple(ps: Seq<Pattern>, n: nat, value: Seq<char>, mutable: bool, rc: bool, c: nat, s: Seq<MirInstr>) -> bool
    decreases n,
{
    if n == 0 || n > ps.len() {
        s.len() == 0
    } else {
        let per: nat = if rc {
            3
        } else {
            2
        };
        let k = (per * named_count(ps, (n - 1) as nat)) as int;
        let t = tmp_name(c + named_count(ps, (n - 1) as nat));
        match ps[n - 1] {
            Pattern::Identifier(name) => {
                &&& s.len() == k + per
                &&& global_binds_tuple(ps, (n - 1) as nat, value, mutable, rc, c, s.subrange(0, k))
                &&& s[k] matches MirInstr::TupleExtract { name: x, source, index } && x@ == t && source@ == value && index
                    == n - 1
                &&& s[k + 1] matches MirInstr::Assign { name: y, value: v, mutable: m } && y@ == name@ && v@ == t && m
                    == mutable
                &&& rc ==> (s[k + 2] matches MirInstr::IncRef { value: z } && z@ == name@)
            },
            _ => s.len() == k && global_binds_tuple(ps, (n - 1) as nat, value, mutable, rc, c, s),
        }
    }
}

/// `s` is what binding the value named `value` to the pattern of a global
/// `let` appends, temporaries from `c`: for a name, its assignment and,
/// for a reference-counted declared type with a value copied from another
/// variable, an `IncRef`; for a tuple, what `global_binds_tuple` says;
/// nothing for `_`.
pub open spec fn global_binds(p: Pattern, value: Seq<char>, mutable: bool, copy_rc: bool, rc: bool, c: nat, s: Seq<MirInstr>) -> bool {
    match p {
        Pattern::Identifier(name) => {
            &&& s.len() == if copy_rc {
                2int
            } else {
                1int
            }
            &&& s[0] matches MirInstr::Assign { name: y, value: v, mutable: m } && y@ == name@ && v@ == value && m == mutable
            &&& copy_rc ==> (s[1] matches MirInstr::IncRef { value: z } && z@ == name@)
        },
        Pattern::Wildcard => s.len() == 0,
        Pattern::Tuple(ps) => global_binds_tuple(ps@, ps@.len(), value, mutable, rc, c, s),
    }
}

/// Lowers a global `let` into the instructions it runs: the value's
/// instructions, then the assignment (for a tuple pattern, an extraction
/// and an assignment per named element). A variable of a reference-counted
/// declared type is tracked in the current scope, and gets an `IncRef`
/// when its value is copied from another variable; tuple elements get one
/// when the declaration is marked reference counted. Other nodes lower to
/// nothing.
#[verifier::rlimit(30)]
pub fn build_let_decl(builder: &mut MirBuilder, node: &AstNode) -> (r: Vec<MirInstr>)
    requires
        *node matches AstNode::LetDecl { value, pattern, .. } ==> lowerable(*value) && old(builder).room_for(
            expr_cost(*value) + let_pattern_cost(pattern),
        ),
    ensures
        !(*node is LetDecl) ==> r@.len() == 0 && *final(builder) == *old(builder),
        *node matches AstNode::LetDecl { value, pattern, .. } ==> {
            &&& old(builder).tmp_counter <= final(builder).tmp_counter <= old(builder).tmp_counter + expr_cost(*value)
                + let_pattern_cost(pattern)
            &&& final(builder).block_counter == old(builder).block_counter
            &&& final(builder).table_inv()
            &&& final(builder).program == old(builder).program
            &&& final(builder).loop_stack == old(builder).loop_stack
            &&& final(builder).rc_tracked_vars@.len() == old(builder).rc_tracked_vars@.len()
        },
        *node matches AstNode::LetDecl { pattern, type_annotation, .. } ==> (!(rc_annotation(type_annotation)
            && pattern is Identifier) ==> final(builder).rc_tracked_vars@ == old(builder).rc_tracked_vars@),
        *node matches AstNode::LetDecl { value, pattern, mutable, type_annotation, .. } ==> (pattern matches Pattern::Identifier(
            name,
        ) ==> {
            &&& r@.len() >= 1
            &&& if rc_annotation(type_annotation) && copies_variable(*value) {
                &&& r@.len() >= 2
                &&& (r@.last() matches MirInstr::IncRef { value: v } && v@ == name@)
                &&& (r@[r@.len() - 2] matches MirInstr::Assign { name: n, mutable: m, .. } && n@ == name@ && m
                    == mutable)
            } else {
                r@.last() matches MirInstr::Assign { name: n, mutable: m, .. } && n@ == name@ && m == mutable
            }
            &&& (rc_annotation(type_annotation) && old(builder).rc_tracked_vars@.len() > 0) ==> final(builder).rc_tracked_vars@.last()@ == old(builder).rc_tracked_vars@.last()@.push(name)
        }),
        *node matches AstNode::LetDecl { value, pattern, mutable, type_annotation, is_ref_counted } ==> {
            let c0 = old(builder).tmp_counter as nat;
            let n = instr_count(*value) as int;
            &&& n <= r@.len()
            &&& emits(*value, c0, r@.subrange(0, n))
            &&& global_binds(
                pattern,
                result_name(*value, c0),
                mutable,
                rc_annotation(type_annotation) && copies_variable(*value),
                is_ref_counted == Some(true),
                c0 + expr_cost(*value),
                r@.subrange(n, r@.len() as int),
            )
        },
{
    match node {
        AstNode::LetDecl { pattern, value, mutable, type_annotation, is_ref_counted } => {
            let mut temp_block = MirBlock { label: String::from_str("temp"), instrs: Vec::new(), terminator: None };
            let ghost empty_block = temp_block;
            let value_tmp = build_expression(builder, value, &mut temp_block);
            assert(temp_block.instrs@.skip(empty_block.instrs@.len() as int) =~= temp_block.instrs@);
            proof {
                lemma_emits_len(**value, old(builder).tmp_counter as nat, temp_block.instrs@);
            }
            let mut instrs = temp_block.instrs;
            let ghost vinstrs = instrs@;
            let needs_rc = match type_annotation {
                Some(TypeNode::String) => true,
                Some(TypeNode::Array(_)) => true,
                Some(TypeNode::MapOf(_, _)) => true,
                _ => false,
            };
            let cs = crate::lexar::chars::str_chars(value_tmp.as_str());
            let starts_with_percent = cs.len() > 0 && cs[0] == '%';
            let is_copying_variable = !starts_with_percent && !parses_as_i32(&value_tmp) && !value_tmp.eq(
                &String::from_str("true"),
            ) && !value_tmp.eq(&String::from_str("false"));
            proof {
                if !(**value is Identifier) {
                }
            }
            let ghost mid = *builder;
            match pattern {
                Pattern::Identifier(name) => {
                    instrs.push(MirInstr::Assign { name: name.clone(), value: value_tmp.clone(), mutable: *mutable });
                    if needs_rc && is_copying_variable {
                        instrs.push(MirInstr::IncRef { value: name.clone() });
                    }
                    if needs_rc {
                        builder.track_rc_var(name.clone());
                    }
                },
                Pattern::Tuple(patterns) => {
                    let rc = match is_ref_counted {
                        Some(b) => *b,
                        None => false,
                    };
                    let ghost per: nat = if rc {
                        3
                    } else {
                        2
                    };
                    let ghost n0 = instrs@.len();
                    let ghost c1 = mid.tmp_counter as nat;
                    let mut i: usize = 0;
                    assert(instrs@.subrange(n0 as int, instrs@.len() as int) =~= Seq::<MirInstr>::empty());
                    while i < patterns.len()
                        invariant
                            i <= patterns.len(),
                            mid.tmp_counter <= builder.tmp_counter <= mid.tmp_counter + i,
                            mid.tmp_counter + patterns@.len() <= usize::MAX,
                            builder.block_counter == mid.block_counter,
                            builder.same_structure(&mid),
                            builder.mir_symbol_table == mid.mir_symbol_table,
                            builder.table_inv(),
                            mid.table_inv(),
                            builder.tmp_counter == mid.tmp_counter + named_count(patterns@, i as nat),
                            named_count(patterns@, i as nat) <= i,
                            n0 <= instrs@.len(),
                            n0 == vinstrs.len(),
                            instrs@.subrange(0, n0 as int) == vinstrs,
                            c1 == mid.tmp_counter,
                            rc == (is_ref_counted == Some(true)),
                            per == (if rc {
                                3nat
                            } else {
                                2nat
                            }),
                            global_binds_tuple(patterns@, i as nat, value_tmp@, *mutable, rc, c1, instrs@.subrange(n0 as int, instrs@.len() as int)),
                            instrs@.len() == n0 + per * named_count(patterns@, i as nat),
                        decreases patterns.len() - i,
                    {
                        let ghost before = instrs@;
                        if let Pattern::Identifier(name) = &patterns[i] {
                            let extract_tmp = builder.next_tmp();
                            let src = value_tmp.clone();
                            instrs.push(MirInstr::TupleExtract { name: extract_tmp.clone(), source: src, index: i });
                            instrs.push(MirInstr::Assign { name: name.clone(), value: extract_tmp, mutable: *mutable });
                            if rc {
                                instrs.push(MirInstr::IncRef { value: name.clone() });
                            }
                            proof {
                                assert(instrs@.subrange(0, n0 as int) =~= before.subrange(0, n0 as int));
                                let k = (per * named_count(patterns@, i as nat)) as int;
                                let sfull = instrs@.subrange(n0 as int, instrs@.len() as int);
                                assert(sfull.subrange(0, k) =~= before.subrange(n0 as int, before.len() as int));
                                assert(sfull[k] == instrs@[n0 + k]);
                                assert(sfull[k + 1] == instrs@[n0 + k + 1]);
                                if rc {
                                    assert(sfull[k + 2] == instrs@[n0 + k + 2]);
                                }
                                assert(per * named_count(patterns@, (i + 1) as nat) == per * named_count(patterns@, i as nat) + per) by (nonlinear_arith)
                                    requires
                                        named_count(patterns@, (i + 1) as nat) == named_count(patterns@, i as nat) + 1,
                                ;
                                assert(global_binds_tuple(patterns@, (i + 1) as nat, value_tmp@, *mutable, rc, c1, sfull));
                            }
                        } else {
                            assert(global_binds_tuple(patterns@, (i + 1) as nat, value_tmp@, *mutable, rc, c1, instrs@.subrange(n0 as int, instrs@.len() as int)));
                        }
                        i += 1;
                    }
                },
                Pattern::Wildcard => {},
            }
            proof {
                let n = vinstrs.len() as int;
                assert(instrs@.subrange(0, n) =~= vinstrs);
                if let Pattern::Identifier(_) = pattern {
                    assert((needs_rc && is_copying_variable) == (rc_annotation(*type_annotation) && copies_variable(**value)));
                    let rest = instrs@.subrange(n, instrs@.len() as int);
                    assert(rest[0] == instrs@[n]);
                    if needs_rc && is_copying_variable {
                        assert(rest[1] == instrs@[n + 1]);
                    }
                }
                if let Pattern::Wildcard = pattern {
                    assert(instrs@.subrange(n, instrs@.len() as int) =~= Seq::<MirInstr>::empty());
                }
            }
            instrs
        },
        _ => Vec::new(),
    }
}

} // verus!

verus! {

/// The text of an optional type.
pub open spec fn type_text_of(t: Option<String>) -> Option<Seq<char>> {
    match t {
        Some(s) => Some(s@),
        None => None,
    }
}

/// The text of an optional written type (see `type_debug`).
pub open spec fn opt_type_debug(t: Option<TypeNode>) -> Option<Seq<char>> {
    match t {
        Some(t) => Some(type_debug(t)),
        None => None,
    }
}

/// An upper bound on the temporaries and blocks lowering a function body
/// takes: its statements, a fresh block after each one that ends its
/// block, and the entry block.
pub open spec fn fn_cost(body: Seq<AstNode>) -> nat {
    stmts_cost(body) + body.len() + 1
}

/// The blocks of a function whose body is straight-line: none when the
/// body emits nothing, else one block, the first numbered (`k`), holding
/// what the body emits from the temporary `c` on, then the `DecRef`s that
/// close the function's scope, and ending with an empty `return` when the
/// function returns nothing (with no terminator otherwise).
pub open spec fn straight_fn_blocks(bs: Seq<MirBlock>, body: Seq<AstNode>, c: nat, k: nat, returns_nothing: bool) -> bool {
    &&& bs.len() <= 1
    &&& bs.len() == 0 ==> stmts_emit(body, c, Seq::empty())
    &&& bs.len() == 1 ==> {
        &&& bs[0].label@ == block_name(k)
        &&& exists|n: int|
            0 < n <= bs[0].instrs@.len() && stmts_emit(body, c, #[trigger] bs[0].instrs@.take(n)) && forall|j: int|
                n <= j < bs[0].instrs@.len() ==> (#[trigger] bs[0].instrs@[j]) is DecRef
        &&& returns_nothing ==> (bs[0].terminator matches Some(MirInstr::Return { values }) && values@.len() == 0)
        &&& !returns_nothing ==> bs[0].terminator is None
    }
}

/// Lowers a function declaration into a new function of the program: its
/// parameters, their written types and its return type as text, and its
/// body lowered from a fresh entry block (after a statement that ends its
/// block without starting a new one, lowering continues in a fresh block
/// that the last open block jumps to). The function's reference-counted
/// variables are released at its end: in every block without a terminator
/// (which, for a function without a return type, then returns), or, when
/// the function has a single block, in that block.
#[verifier::rlimit(30)]
pub fn build_function_decl(builder: &mut MirBuilder, node: &AstNode)
    requires
        *node is FunctionDecl,
        *node matches AstNode::FunctionDecl { body, .. } ==> stmts_lowerable(
            body@,
            old(builder).loop_stack@.len() > 0,
        ) && old(builder).room_for(fn_cost(body@)),
    ensures
        final(builder).program.functions@.len() == old(builder).program.functions@.len() + 1,
        final(builder).program.functions@.drop_last() == old(builder).program.functions@,
        final(builder).program.globals == old(builder).program.globals,
        final(builder).program.is_main_entry == old(builder).program.is_main_entry,
        final(builder).loop_stack@ == old(builder).loop_stack@,
        final(builder).rc_tracked_vars@ == old(builder).rc_tracked_vars@,
        final(builder).table_inv(),
        *node matches AstNode::FunctionDecl { body, .. } ==> {
            &&& old(builder).tmp_counter <= final(builder).tmp_counter <= old(builder).tmp_counter + fn_cost(body@)
            &&& old(builder).block_counter <= final(builder).block_counter <= old(builder).block_counter + fn_cost(body@)
        },
        *node matches AstNode::FunctionDecl { name, params, return_type, .. } ==> {
            let f = final(builder).program.functions@.last();
            &&& f.name@ == name@
            &&& f.params@.len() == params@.len()
            &&& forall|i: int| 0 <= i < params@.len() ==> (#[trigger] f.params@[i])@ == params@[i].0@
            &&& f.param_types@.len() == params@.len()
            &&& forall|i: int| 0 <= i < params@.len() ==> type_text_of(#[trigger] f.param_types@[i]) == opt_type_debug(params@[i].1)
            &&& type_text_of(f.return_type) == opt_type_debug(return_type)
            &&& return_type is None ==> forall|b: int| 0 <= b < f.blocks@.len() ==> (#[trigger] f.blocks@[b]).terminator is Some
        },
        *node matches AstNode::FunctionDecl { return_type, body, .. } ==> (all_straight(body@) ==> straight_fn_blocks(
            final(builder).program.functions@.last().blocks@,
            body@,
            old(builder).tmp_counter as nat,
            old(builder).block_counter as nat,
            return_type is None,
        )),
{
    match node {
        AstNode::FunctionDecl { name, params, return_type, body, .. } => {
            let mut param_names: Vec<String> = Vec::new();
            let mut param_types: Vec<Option<String>> = Vec::new();
            let mut i: usize = 0;
            while i < params.len()
                invariant
                    i <= params.len(),
                    param_names@.len() == i,
                    param_types@.len() == i,
                    forall|j: int| 0 <= j < i ==> (#[trigger] param_names@[j])@ == params@[j].0@,
                    forall|j: int| 0 <= j < i ==> type_text_of(#[trigger] param_types@[j]) == opt_type_debug(params@[j].1),
                decreases params.len() - i,
            {
                param_names.push(params[i].0.clone());
                let t = match &params[i].1 {
                    Some(ty) => Some(type_debug_text(ty)),
                    None => None,
                };
                param_types.push(t);
                i += 1;
            }
            let ret = match return_type {
                Some(t) => Some(type_debug_text(t)),
                None => None,
            };
            let func = MirFunction {
                name: name.clone(),
                params: param_names,
                param_types,
                return_type: ret,
                blocks: Vec::new(),
            };
            let ghost before = *builder;
            builder.program.functions.push(func);
            let ghost pushed = *builder;
            assert(same_headers(pushed.program.functions@.drop_last(), before.program.functions@)) by {
                assert(pushed.program.functions@.drop_last() =~= before.program.functions@);
            }
            let first_label = builder.next_block();
            let mut block = MirBlock { label: first_label, instrs: Vec::new(), terminator: None };
            builder.enter_scope();
            let ghost scoped = *builder;
            let mut k: usize = 0;
            proof {
                assert(body@.take(0) =~= Seq::<AstNode>::empty());
            }
            while k < body.len()
                invariant
                    *node == (AstNode::FunctionDecl { name: *name, visibility: node->FunctionDecl_visibility, params: *params, return_type: *return_type, body: *body }),
                    stmts_lowerable(body@, scoped.loop_stack@.len() > 0),
                    before.room_for(fn_cost(body@)),
                    k <= body.len(),
                    scoped.tmp_counter == before.tmp_counter,
                    scoped.block_counter == before.block_counter + 1,
                    scoped.tmp_counter <= builder.tmp_counter <= scoped.tmp_counter + stmts_cost(body@.take(k as int)),
                    scoped.block_counter <= builder.block_counter <= scoped.block_counter + stmts_cost(body@.take(k as int)) + k,
                    builder.table_inv(),
                    builder.loop_stack@ == scoped.loop_stack@,
                    builder.rc_tracked_vars@ == scoped.rc_tracked_vars@,
                    builder.program.globals == scoped.program.globals,
                    builder.program.is_main_entry == scoped.program.is_main_entry,
                    same_headers(builder.program.functions@, scoped.program.functions@),
                    all_straight(body@) ==> {
                        &&& block.label@ == block_name(before.block_counter as nat)
                        &&& block.terminator is None
                        &&& builder.program == scoped.program
                        &&& stmts_emit(body@.take(k as int), before.tmp_counter as nat, block.instrs@)
                    },
                decreases body.len() - k,
            {
                proof {
                    crate::mir::statements::lemma_stmts_cost_prefix(body@, k as int);
                }
                let old_label = block.label.clone();
                let ghost prev = block;
                let ghost ck = builder.tmp_counter as nat;
                build_statement(builder, &body[k], &mut block);
                proof {
                    if all_straight(body@) {
                        assert(straight_line(body@[k as int]));
                        let v = body@.take(k + 1);
                        let s = block.instrs@;
                        let m = prev.instrs@.len() as int;
                        assert(s.take(m) =~= prev.instrs@);
                        assert(s.skip(m) =~= block.instrs@.skip(prev.instrs@.len() as int));
                        assert(v.drop_last() =~= body@.take(k as int));
                        assert(v.last() == body@[k as int]);
                        assert(stmt_emits(v.last(), ck, s.skip(m)));
                        assert(stmts_emit(v, before.tmp_counter as nat, s));
                    }
                }
                if block.terminator.is_some() {
                    let block_was_updated = !block.label.eq(&old_label);
                    if !block_was_updated {
                        let mut finished = MirBlock { label: String::new(), instrs: Vec::new(), terminator: None };
                        std::mem::swap(&mut finished, &mut block);
                        builder.push_to_current(finished);
                        let next_label = builder.next_block();
                        block = MirBlock { label: next_label.clone(), instrs: Vec::new(), terminator: None };
                        builder.link_open_block_to_new(&next_label);
                    }
                }
                k += 1;
            }
            proof {
                assert(body@.take(body.len() as int) =~= body@);
            }
            let ghost last_block = block;
            if block.instrs.len() > 0 || block.terminator.is_some() {
                builder.push_to_current(block);
            }
            let mut temp_block = MirBlock { label: String::from_str("temp_cleanup"), instrs: Vec::new(), terminator: None };
            let ghost scope = builder.rc_tracked_vars@;
            builder.exit_scope(&mut temp_block);
            let decref_instrs = temp_block.instrs;
            let n = builder.program.functions.len();
            let ghost fin = *builder;
            if n > 0 {
                let has_multiple_blocks = builder.program.functions[n - 1].blocks.len() > 1;
                if has_multiple_blocks {
                    let mut b: usize = 0;
                    let ghost nblocks = builder.program.functions@[n - 1].blocks@.len();
                    while b < builder.program.functions[n - 1].blocks.len()
                        invariant
                            n == builder.program.functions@.len(),
                            n > 0,
                            builder.program.functions@[n - 1].blocks@.len() == nblocks,
                            b <= nblocks,
                            builder.same_but_blocks(&fin),
                            builder.program.functions@[n - 1].name == fin.program.functions@[n - 1].name,
                            builder.program.functions@[n - 1].params == fin.program.functions@[n - 1].params,
                            builder.program.functions@[n - 1].param_types == fin.program.functions@[n - 1].param_types,
                            builder.program.functions@[n - 1].return_type == fin.program.functions@[n - 1].return_type,
                            return_type.is_none() ==> forall|j: int|
                                0 <= j < b ==> (#[trigger] builder.program.functions@[n - 1].blocks@[j]).terminator is Some,
                        decreases builder.program.functions@[n - 1].blocks@.len() - b,
                    {
                        if builder.program.functions[n - 1].blocks[b].terminator.is_none() {
                            let mut d: usize = 0;
                            let ghost inner = builder.program.functions@[n - 1];
                            while d < decref_instrs.len()
                                invariant
                                    n == builder.program.functions@.len(),
                                    n > 0,
                                    builder.program.functions@[n - 1].blocks@.len() == nblocks,
                                    b < nblocks,
                                    builder.same_but_blocks(&fin),
                                    builder.program.functions@[n - 1].name == inner.name,
                                    builder.program.functions@[n - 1].params == inner.params,
                                    builder.program.functions@[n - 1].param_types == inner.param_types,
                                    builder.program.functions@[n - 1].return_type == inner.return_type,
                                    forall|j: int|
                                        0 <= j < nblocks ==> (#[trigger] builder.program.functions@[n - 1].blocks@[j]).terminator
                                            == inner.blocks@[j].terminator,
                                decreases decref_instrs.len() - d,
                            {
                                let instr = decref_instrs[d].clone();
                                builder.program.functions[n - 1].blocks[b].instrs.push(instr);
                                d += 1;
                            }
                            if return_type.is_none() {
                                builder.program.functions[n - 1].blocks[b].terminator = Some(
                                    MirInstr::Return { values: Vec::new() },
                                );
                            }
                        }
                        b += 1;
                    }
                } else if builder.program.functions[n - 1].blocks.len() > 0 {
                    let mut closing = decref_instrs;
                    builder.program.functions[n - 1].blocks[0].instrs.append(&mut closing);
                    if return_type.is_none() && builder.program.functions[n - 1].blocks[0].terminator.is_none() {
                        builder.program.functions[n - 1].blocks[0].terminator = Some(MirInstr::Return { values: Vec::new() });
                    }
                }
            }
            proof {
                if all_straight(body@) {
                    let bs = builder.program.functions@.last().blocks@;
                    lemma_decrefs_all(scope.last()@);
                    if last_block.instrs@.len() > 0 {
                        let m = last_block.instrs@.len() as int;
                        assert(bs[0].instrs@.take(m) =~= last_block.instrs@);
                        assert forall|j: int| m <= j < bs[0].instrs@.len() implies (#[trigger] bs[0].instrs@[j]) is DecRef by {
                            assert(bs[0].instrs@[j] == decrefs(scope.last()@)[j - m]);
                        }
                    } else {
                        assert(last_block.instrs@ =~= Seq::<MirInstr>::empty());
                    }
                }
            }
            assert(builder.rc_tracked_vars@ =~= before.rc_tracked_vars@);
        },
        _ => {},
    }
}

} // verus!
