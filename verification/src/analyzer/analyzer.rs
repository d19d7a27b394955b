use crate::analyzer::declarations::has_return;
use crate::analyzer::statements::rc_type;
use crate::analyzer::table::{Modeled, NameMap};
use crate::analyzer::types::{NamedError, SemanticError};
use crate::lexar::chars::{char_is_uppercase, is_uppercase, str_chars};
use crate::lexar::lexer::lex;
use crate::parser::ast::{clone_string, models, AstNode, TypeModel, TypeNode};
use crate::parser::parser::Parser;
use crate::text::{join, joined, views};
use vstd::string::StringExecFns;
use vstd::prelude::*;

verus! {

/// What the analyzer knows of a variable.
#[derive(Debug)]
pub struct SymbolInfo {
    pub ty: TypeNode,
    pub mutable: bool,
    pub is_ref_counted: bool,
    pub is_parameter: bool,
}

pub struct SymbolModel {
    pub ty: TypeModel,
    pub mutable: bool,
    pub is_ref_counted: bool,
    pub is_parameter: bool,
}

impl Modeled for SymbolInfo {
    type M = SymbolModel;

    open spec fn model(&self) -> SymbolModel {
        SymbolModel {
            ty: self.ty.model(),
            mutable: self.mutable,
            is_ref_counted: self.is_ref_counted,
            is_parameter: self.is_parameter,
        }
    }

    fn duplicate(&self) -> (r: Self) {
        SymbolInfo {
            ty: self.ty.duplicate(),
            mutable: self.mutable,
            is_ref_counted: self.is_ref_counted,
            is_parameter: self.is_parameter,
        }
    }
}

/// A function signature: parameter types and return type.
#[derive(Debug)]
pub struct FnSig {
    pub params: Vec<TypeNode>,
    pub ret: TypeNode,
}

pub fn duplicate_types(v: &Vec<TypeNode>) -> (r: Vec<TypeNode>)
    ensures
        models(r@) == models(v@),
{
    let mut out: Vec<TypeNode> = Vec::new();
    let mut i: usize = 0;
    while i < v.len()
        invariant
            i <= v.len(),
            out.len() == i,
            forall|j: int| 0 <= j < i ==> (#[trigger] out@[j]).model() == v@[j].model(),
        decreases v.len() - i,
    {
        out.push(v[i].duplicate());
        i += 1;
    }
    proof {
        crate::parser::ast::lemma_models(out@);
        crate::parser::ast::lemma_models(v@);
        assert(models(out@) =~= models(v@));
    }
    out
}

impl Modeled for FnSig {
    type M = (Seq<TypeModel>, TypeModel);

    open spec fn model(&self) -> (Seq<TypeModel>, TypeModel) {
        (models(self.params@), self.ret.model())
    }

    fn duplicate(&self) -> (r: Self) {
        FnSig { params: duplicate_types(&self.params), ret: self.ret.duplicate() }
    }
}

/// The semantic analyzer: type checking, name resolution and the other
/// checks a program must pass before it is lowered.
pub struct SemanticAnalyzer {
    /// Variables in the current scope.
    pub symbol_table: NameMap<SymbolInfo>,
    /// Signatures of the declared and imported functions.
    pub function_table: NameMap<FnSig>,
    /// The variables around the function being analyzed.
    pub outer_symbol_table: Option<NameMap<SymbolInfo>>,
    /// Root directory for module resolution.
    pub project_root: String,
    /// Keys (`a::b`) of the modules already imported.
    pub imported_modules: Vec<String>,
    /// Function declarations brought in by imports, for lowering.
    pub imported_functions: Vec<AstNode>,
    /// How many loops enclose the statement being analyzed.
    pub loop_depth: usize,
    /// Saved symbol tables of the enclosing blocks.
    pub scope_stack: Vec<NameMap<SymbolInfo>>,
    /// Module sources the imports can resolve to: the module path and its text.
    pub module_sources: Vec<(Vec<String>, String)>,
    /// Whether this analyzer checks a program's entry module (which must
    /// declare `main`) rather than an imported module.
    pub is_entry: bool,
    /// Errors collected besides the first one returned.
    pub collected_errors: Vec<SemanticError>,
}

impl SemanticAnalyzer {
    /// A fresh analyzer for a program's entry module: empty tables, no
    /// module sources, outside any loop, block or function.
    pub fn new(project_root: Option<String>) -> (r: Self)
        ensures
            r.symbol_table@ == Map::<Seq<char>, SymbolModel>::empty(),
            r.function_table@ == Map::<Seq<char>, (Seq<TypeModel>, TypeModel)>::empty(),
            r.outer_symbol_table is None,
            r.imported_modules@.len() == 0,
            r.imported_functions@.len() == 0,
            r.loop_depth == 0,
            r.scope_stack@.len() == 0,
            r.module_sources@.len() == 0,
            r.is_entry,
            r.collected_errors@.len() == 0,
            project_root matches Some(p) ==> r.project_root@ == p@,
            project_root is None ==> r.project_root@ == "."@,
    {
        let root = match project_root {
            Some(p) => p,
            None => String::from_str("."),
        };
        SemanticAnalyzer {
            symbol_table: NameMap::new(),
            function_table: NameMap::new(),
            outer_symbol_table: None,
            project_root: root,
            imported_modules: Vec::new(),
            imported_functions: Vec::new(),
            loop_depth: 0,
            scope_stack: Vec::new(),
            module_sources: Vec::new(),
            is_entry: true,
            collected_errors: Vec::new(),
        }
    }

    /// Makes the text of the module at `path` (`["http", "Client"]` for
    /// `http/Client.my`) available to imports.
    pub fn add_module_source(&mut self, path: Vec<String>, source: String)
        ensures
            final(self).module_sources@ == old(self).module_sources@.push((path, source)),
            final(self).symbol_table == old(self).symbol_table,
            final(self).function_table == old(self).function_table,
            final(self).is_entry == old(self).is_entry,
            final(self).loop_depth == old(self).loop_depth,
            final(self).scope_stack == old(self).scope_stack,
    {
        self.module_sources.push((path, source));
    }

    /// Whether values of this type are reference counted: arrays, maps and strings.
    pub fn should_be_rc(ty: &TypeNode) -> (r: bool)
        ensures
            r == crate::analyzer::statements::rc_type(ty.model()),
    {
        match ty {
            TypeNode::Array(_) | TypeNode::MapOf(_, _) | TypeNode::String => true,
            _ => false,
        }
    }

    /// `self` agrees with `other` on everything but the current symbol table.
    pub open spec fn same_but_symbols(&self, other: &Self) -> bool {
        &&& self.function_table == other.function_table
        &&& self.outer_symbol_table == other.outer_symbol_table
        &&& self.project_root == other.project_root
        &&& self.imported_modules == other.imported_modules
        &&& self.imported_functions == other.imported_functions
        &&& self.loop_depth == other.loop_depth
        &&& self.scope_stack == other.scope_stack
        &&& self.module_sources == other.module_sources
        &&& self.is_entry == other.is_entry
        &&& self.collected_errors == other.collected_errors
    }
}

/// A size of statements that every analysis step into a part decreases.
pub open spec fn node_size(n: AstNode) -> nat
    decreases n,
{
    match n {
        AstNode::Program(v) => 1 + nodes_size(v@),
        AstNode::Block(v) => 1 + nodes_size(v@),
        AstNode::Print { exprs } => 1 + nodes_size(exprs@),
        AstNode::FunctionDecl { body, .. } => 2 + nodes_size(body@),
        AstNode::ConditionalStmt { then_block, else_branch, .. } => 1 + nodes_size(then_block@) + match else_branch {
            Some(b) => node_size(*b),
            None => 0,
        },
        AstNode::ForLoopStmt { body, .. } => 1 + nodes_size(body@),
        _ => 1,
    }
}

/// The sum of the sizes of the statements.
pub open spec fn nodes_size(v: Seq<AstNode>) -> nat
    decreases v,
{
    if v.len() == 0 {
        0
    } else {
        nodes_size(v.drop_last()) + node_size(v.last())
    }
}

/// The size of an optional `else` branch.
pub open spec fn else_size(b: Option<Box<AstNode>>) -> nat {
    match b {
        Some(n) => node_size(*n),
        None => 0,
    }
}

pub proof fn lemma_node_size_positive(n: AstNode)
    ensures
        node_size(n) >= 1,
{
}

/// A statement is no bigger than the list it is in.
pub proof fn lemma_nodes_size_elem(v: Seq<AstNode>, i: int)
    requires
        0 <= i < v.len(),
    ensures
        node_size(v[i]) <= nodes_size(v),
        nodes_size(v) >= 1,
    decreases v.len(),
{
    lemma_node_size_positive(v.last());
    assert(nodes_size(v) == nodes_size(v.drop_last()) + node_size(v.last()));
    if i < v.len() - 1 {
        lemma_nodes_size_elem(v.drop_last(), i);
        assert(v.drop_last()[i] == v[i]);
    }
}

/// Statements that can change the analyzer's state.
pub open spec fn mutating(n: AstNode) -> bool {
    ||| n is LetDecl
    ||| n is FunctionDecl
    ||| n is StructDecl
    ||| n is EnumDecl
    ||| n is Assignment
    ||| n is Print
    ||| n is ConditionalStmt
    ||| n is ForLoopStmt
    ||| n is Block
}

/// Nodes that are analyzed as expressions.
pub open spec fn plain_expression(n: AstNode) -> bool {
    !mutating(n) && !(n is Import || n is Return || n is Break || n is Continue)
}

/// The types `print` accepts.
pub open spec fn printable(t: TypeModel) -> bool {
    t is Int || t is Float || t is Bool || t is Str || t is Array || t is MapOf || t is Tuple
}

/// Nodes that the analysis checks without changing anything: expressions,
/// `return`, `break`, `continue`, and `print` of expressions.
pub open spec fn simple_node(n: AstNode) -> bool {
    ||| !mutating(n) && !(n is Import)
    ||| n matches AstNode::Print { exprs } && forall|i: int| 0 <= i < exprs.len() ==> plain_expression(#[trigger] exprs@[i])
}

/// The type a parameter is registered with: its written type, `Int` when
/// none is written.
pub open spec fn param_model(t: Option<TypeNode>) -> TypeModel {
    match t {
        Some(t) => t.model(),
        None => TypeModel::Int,
    }
}

/// The signature a function declaration registers: its parameters' types
/// (see `param_model`) and its return type (`Void` when none is written).
pub open spec fn sig_of(params: Seq<(String, Option<TypeNode>)>, return_type: Option<TypeNode>) -> (Seq<TypeModel>, TypeModel) {
    (
        Seq::new(params.len(), |i: int| param_model(params[i].1)),
        crate::analyzer::declarations::return_model(return_type),
    )
}

/// The function table after registering the functions declared among
/// `nodes`, in order, on top of `table`.
pub open spec fn registered(table: Map<Seq<char>, (Seq<TypeModel>, TypeModel)>, nodes: Seq<AstNode>) -> Map<
    Seq<char>,
    (Seq<TypeModel>, TypeModel),
>
    decreases nodes.len(),
{
    if nodes.len() == 0 {
        table
    } else {
        let before = registered(table, nodes.drop_last());
        match nodes.last() {
            AstNode::FunctionDecl { name, params, return_type, .. } => before.insert(name@, sig_of(params@, return_type)),
            _ => before,
        }
    }
}

/// A simple node, or the declaration of a function whose body holds simple
/// nodes only.
pub open spec fn decl_or_simple(n: AstNode) -> bool {
    simple_node(n) || (n matches AstNode::FunctionDecl { body, .. } && all_simple(body@))
}

/// Every node of the list is a simple node or the declaration of a function
/// with a simple body (see `decl_or_simple`).
pub open spec fn all_decl_or_simple(v: Seq<AstNode>) -> bool {
    forall|i: int| 0 <= i < v.len() ==> decl_or_simple(#[trigger] v[i])
}

/// A name `registered` binds was bound before or is declared among `nodes`.
pub proof fn lemma_registered_keys(table: Map<Seq<char>, (Seq<TypeModel>, TypeModel)>, nodes: Seq<AstNode>, k: Seq<char>)
    requires
        registered(table, nodes).contains_key(k),
    ensures
        table.contains_key(k) || exists|j: int|
            0 <= j < nodes.len() && (#[trigger] nodes[j]) is FunctionDecl && nodes[j]->FunctionDecl_name@ == k,
    decreases nodes.len(),
{
    if nodes.len() > 0 {
        let v = nodes.drop_last();
        if registered(table, v).contains_key(k) {
            lemma_registered_keys(table, v, k);
            if !table.contains_key(k) {
                let j = choose|j: int| 0 <= j < v.len() && (#[trigger] v[j]) is FunctionDecl && v[j]->FunctionDecl_name@ == k;
                assert(nodes[j] == v[j]);
            }
        } else {
            assert(nodes[nodes.len() - 1] is FunctionDecl);
        }
    }
}

/// Every node of the list is simple (see `simple_node`).
pub open spec fn all_simple(v: Seq<AstNode>) -> bool {
    forall|i: int| 0 <= i < v.len() ==> simple_node(#[trigger] v[i])
}

/// Whether simple nodes pass the analysis depends on the types of the
/// variables and functions and on the loop depth alone.
pub proof fn lemma_simple_ok_tables(a: SemanticAnalyzer, b: SemanticAnalyzer, v: Seq<AstNode>)
    requires
        a.symbol_table@ == b.symbol_table@,
        a.function_table@ == b.function_table@,
        a.loop_depth == b.loop_depth,
    ensures
        a.all_simple_ok(v) == b.all_simple_ok(v),
{
    assert forall|k: int| 0 <= k < v.len() implies a.simple_node_ok(#[trigger] v[k]) == b.simple_node_ok(v[k]) by {
        let n = v[k];
        match n {
            AstNode::Return { values } => {
                assert forall|i: int| 0 <= i < values.len() implies a.inferred(#[trigger] values@[i]) == b.inferred(
                    values@[i],
                ) by {
                    crate::analyzer::expressions::lemma_inferred_tables(a, b, values@[i]);
                }
            },
            AstNode::FunctionCall { args, .. } => {
                assert forall|i: int| 0 <= i < args.len() implies a.inferred(#[trigger] args@[i]) == b.inferred(
                    args@[i],
                ) by {
                    crate::analyzer::expressions::lemma_inferred_tables(a, b, args@[i]);
                }
                crate::analyzer::expressions::lemma_inferred_tables(a, b, n);
            },
            AstNode::Print { exprs } => {
                assert forall|i: int| 0 <= i < exprs.len() implies a.inferred(#[trigger] exprs@[i]) == b.inferred(
                    exprs@[i],
                ) && a.expression_ok(exprs@[i]) == b.expression_ok(exprs@[i]) by {
                    crate::analyzer::expressions::lemma_inferred_tables(a, b, exprs@[i]);
                    if let AstNode::FunctionCall { args, .. } = exprs@[i] {
                        assert forall|j: int| 0 <= j < args.len() implies a.inferred(#[trigger] args@[j]) == b.inferred(
                            args@[j],
                        ) by {
                            crate::analyzer::expressions::lemma_inferred_tables(a, b, args@[j]);
                        }
                    }
                }
            },
            _ => {
                crate::analyzer::expressions::lemma_inferred_tables(a, b, n);
            },
        }
    }
}

impl SemanticAnalyzer {
    /// An expression is valid in the current scope: a call is to a declared
    /// function with fitting arguments, anything else is well-typed.
    pub open spec fn expression_ok(&self, n: AstNode) -> bool {
        match n {
            AstNode::FunctionCall { func, args } => self.call_result(*func, args@) is Some,
            _ => self.inferred(n) is Some,
        }
    }

    /// What no analysis step changes: the module sources, whether this is
    /// the entry module, the project root; and functions are never removed.
    pub open spec fn keeps_setup(&self, other: &Self) -> bool {
        &&& self.module_sources == other.module_sources
        &&& self.is_entry == other.is_entry
        &&& self.project_root == other.project_root
        &&& other.function_table@.dom().subset_of(self.function_table@.dom())
    }

    /// `self` agrees with `other` on everything but the function table.
    pub open spec fn same_but_functions(&self, other: &Self) -> bool {
        &&& self.symbol_table == other.symbol_table
        &&& self.outer_symbol_table == other.outer_symbol_table
        &&& self.project_root == other.project_root
        &&& self.imported_modules == other.imported_modules
        &&& self.imported_functions == other.imported_functions
        &&& self.loop_depth == other.loop_depth
        &&& self.scope_stack == other.scope_stack
        &&& self.module_sources == other.module_sources
        &&& self.is_entry == other.is_entry
        &&& self.collected_errors == other.collected_errors
    }

    /// Loops and blocks opened during a step are closed again.
    pub open spec fn restores_nesting(&self, other: &Self) -> bool {
        self.loop_depth == other.loop_depth && self.scope_stack@ == other.scope_stack@
    }

    /// At the top of a module: outside any function, block or loop.
    pub open spec fn at_module_top(&self) -> bool {
        self.outer_symbol_table is None && self.scope_stack@.len() == 0 && self.loop_depth == 0
    }

    /// An entry module analyzed at its top level declares `main`.
    pub open spec fn main_rule_ok(&self) -> bool {
        (self.is_entry && self.at_module_top()) ==> self.function_table@.contains_key("main"@)
    }

    /// The simple nodes `v` pass the analysis in a scope whose variables are
    /// `symbols`, with the functions of `self`, `depth` loops deep (by
    /// `lemma_simple_ok_tables`, this holds of every such state alike).
    pub open spec fn simple_ok_in(&self, symbols: Map<Seq<char>, SymbolModel>, depth: int, v: Seq<AstNode>) -> bool {
        exists|s: SemanticAnalyzer|
            s.symbol_table@ == symbols && s.function_table@ == self.function_table@ && s.loop_depth == depth
                && #[trigger] s.all_simple_ok(v)
    }

    /// A simple node or a function declaration passes the analysis (see
    /// `simple_node_ok` and `fn_decl_ok`).
    pub open spec fn node_ok(&self, n: AstNode) -> bool {
        match n {
            AstNode::FunctionDecl { name, visibility, params, return_type, body } => self.fn_decl_ok(
                name@,
                visibility@,
                params@,
                return_type,
                body@,
            ),
            _ => self.simple_node_ok(n),
        }
    }

    /// A list of simple nodes and function declarations (see
    /// `all_decl_or_simple`) passes the analysis: no function is declared
    /// twice, nor under a name already declared; an entry module at its top
    /// level declares `main`; and, with every declared function registered
    /// (see `registered`), every node passes (see `node_ok`).
    pub open spec fn program_ok(&self, nodes: Seq<AstNode>) -> bool {
        &&& !exists|i: int, j: int|
            0 <= i < j < nodes.len() && (#[trigger] nodes[i]) is FunctionDecl && (#[trigger] nodes[j]) is FunctionDecl
                && nodes[i]->FunctionDecl_name@ == nodes[j]->FunctionDecl_name@
        &&& !exists|i: int|
            0 <= i < nodes.len() && (#[trigger] nodes[i]) is FunctionDecl && self.function_table@.contains_key(
                nodes[i]->FunctionDecl_name@,
            )
        &&& (self.is_entry && self.at_module_top()) ==> registered(self.function_table@, nodes).contains_key("main"@)
        &&& exists|s: SemanticAnalyzer|
            s.symbol_table@ == self.symbol_table@ && s.function_table@ == registered(self.function_table@, nodes)
                && s.loop_depth == self.loop_depth && #[trigger] s.nodes_ok(nodes)
    }

    /// Every node of the list passes (see `node_ok`).
    pub open spec fn nodes_ok(&self, v: Seq<AstNode>) -> bool {
        forall|i: int| 0 <= i < v.len() ==> self.node_ok(#[trigger] v[i])
    }

    /// Every node of the list passes the analysis as a simple node.
    pub open spec fn all_simple_ok(&self, v: Seq<AstNode>) -> bool {
        forall|i: int| 0 <= i < v.len() ==> self.simple_node_ok(#[trigger] v[i])
    }

    /// A simple node passes the analysis: `break` and `continue` stand in a
    /// loop, the values of a `return` have types, the values of a `print`
    /// have printable types and are valid, an expression is valid.
    pub open spec fn simple_node_ok(&self, n: AstNode) -> bool {
        match n {
            AstNode::Break => self.loop_depth != 0,
            AstNode::Continue => self.loop_depth != 0,
            AstNode::Return { values } => forall|i: int| 0 <= i < values.len() ==> self.inferred(#[trigger] values@[i]) is Some,
            AstNode::Print { exprs } => forall|i: int|
                0 <= i < exprs.len() ==> (self.inferred(#[trigger] exprs@[i]) matches Some(t) && printable(t))
                    && self.expression_ok(exprs@[i]),
            _ => self.expression_ok(n),
        }
    }
}

} // verus!

verus! {

/// The parts of a path joined with `sep`.
pub fn join_path(path: &Vec<String>, sep: &str) -> (r: String)
    ensures
        r@ == joined(views(path@), sep@),
{
    join(path, sep)
}

/// Two module paths name the same module: their parts are equal.
pub open spec fn same_module_path(a: Seq<String>, b: Seq<String>) -> bool {
    a.len() == b.len() && forall|i: int| 0 <= i < a.len() ==> (#[trigger] a[i])@ == b[i]@
}

/// Whether two module paths name the same module.
fn same_path(a: &Vec<String>, b: &Vec<String>) -> (r: bool)
    ensures
        r == same_module_path(a@, b@),
{
    if a.len() != b.len() {
        return false;
    }
    let mut i: usize = 0;
    while i < a.len()
        invariant
            a.len() == b.len(),
            i <= a.len(),
            forall|j: int| 0 <= j < i ==> (#[trigger] a@[j])@ == b@[j]@,
        decreases a.len() - i,
    {
        if !a[i].eq(&b[i]) {
            return false;
        }
        i += 1;
    }
    true
}

/// Public functions of a module are those whose name starts with an
/// uppercase letter.
pub open spec fn public_name(n: Seq<char>) -> bool {
    n.len() > 0 && char_is_uppercase(n[0])
}

fn is_public_name(name: &String) -> (r: bool)
    ensures
        r == public_name(name@),
{
    let cs = str_chars(name.as_str());
    cs.len() > 0 && is_uppercase(cs[0])
}

/// The text naming a module that is not among the sources: its path joined
/// with `::`, followed by `::` and the symbol when one is named.
pub open spec fn missing_module_text(path: Seq<String>, symbol: Option<String>) -> Seq<char> {
    match symbol {
        Some(sym) => joined(views(path), "::"@) + "::"@ + sym@,
        None => joined(views(path), "::"@),
    }
}

impl SemanticAnalyzer {
    /// The index of the module source for `path`, if one was added.
    fn resolve_module_path(&self, path: &Vec<String>) -> (r: Option<usize>)
        ensures
            match r {
                Some(i) => i < self.module_sources.len() && same_module_path(self.module_sources@[i as int].0@, path@)
                    && forall|j: int| 0 <= j < i ==> !same_module_path(#[trigger] self.module_sources@[j].0@, path@),
                None => forall|j: int|
                    0 <= j < self.module_sources.len() ==> !same_module_path(#[trigger] self.module_sources@[j].0@, path@),
            },
    {
        let mut i: usize = 0;
        while i < self.module_sources.len()
            invariant
                i <= self.module_sources.len(),
                forall|j: int| 0 <= j < i ==> !same_module_path(#[trigger] self.module_sources@[j].0@, path@),
            decreases self.module_sources.len() - i,
        {
            if same_path(&self.module_sources[i].0, path) {
                return Some(i);
            }
            i += 1;
        }
        None
    }

    /// Whether a function declaration with this name was already brought in.
    fn has_imported_function(&self, name: &String) -> (r: bool)
        ensures
            r == exists|i: int|
                0 <= i < self.imported_functions@.len() && (#[trigger] self.imported_functions@[i] matches AstNode::FunctionDecl {
                    name: n,
                    ..
                } && n@ == name@),
    {
        let mut i: usize = 0;
        while i < self.imported_functions.len()
            invariant
                i <= self.imported_functions.len(),
                forall|j: int|
                    0 <= j < i ==> !(#[trigger] self.imported_functions@[j] matches AstNode::FunctionDecl {
                        name: n,
                        ..
                    } && n@ == name@),
            decreases self.imported_functions.len() - i,
        {
            if let AstNode::FunctionDecl { name: n, .. } = &self.imported_functions[i] {
                if n.eq(name) {
                    return true;
                }
            }
            i += 1;
        }
        false
    }

    /// Imports a module: analyzes its source with an analyzer of its own
    /// (which cannot import the module again) and brings in its public
    /// functions, or only `symbol` when one is named. Fails when the module
    /// is not among the sources, does not parse or analyze, or lacks the
    /// named symbol.
    pub fn import_module(&mut self, path: &Vec<String>, symbol: &Option<String>) -> (r: Result<(), SemanticError>)
        ensures
            final(self).keeps_setup(old(self)),
            final(self).symbol_table == old(self).symbol_table,
            final(self).loop_depth == old(self).loop_depth,
            final(self).scope_stack == old(self).scope_stack,
            final(self).outer_symbol_table == old(self).outer_symbol_table,
            r is Ok ==> (symbol matches Some(sym) ==> (final(self).function_table@.contains_key(sym@)
                || final(self).symbol_table@.contains_key(sym@))),
            (symbol matches Some(sym) && old(self).function_table@.contains_key(sym@)) ==> r is Ok && *final(self)
                == *old(self),
            (!(symbol matches Some(sym) && old(self).function_table@.contains_key(sym@)) && forall|j: int|
                0 <= j < old(self).module_sources@.len() ==> !same_module_path(
                    #[trigger] old(self).module_sources@[j].0@,
                    path@,
                )) ==> (r matches Err(SemanticError::ModuleNotFound(t)) && t@ == missing_module_text(path@, *symbol)
                && *final(self) == *old(self)),
        decreases old(self).module_sources@.len(), 0nat, 0nat,
    {
        if let Some(sym) = symbol {
            if self.function_table.contains_key(sym) {
                return Ok(());
            }
        }
        let module_key = join_path(path, "::");
        let idx = match self.resolve_module_path(path) {
            Some(i) => i,
            None => {
                let full = match symbol {
                    Some(sym) => {
                        let mut f = join_path(path, "::");
                        f.append("::");
                        f.append(sym.as_str());
                        f
                    },
                    None => join_path(path, "::"),
                };
                proof {
                    reveal_strlit("::");
                }
                return Err(SemanticError::ModuleNotFound(full));
            },
        };
        let mut already = false;
        let mut k: usize = 0;
        while k < self.imported_modules.len()
            invariant
                k <= self.imported_modules.len(),
            decreases self.imported_modules.len() - k,
        {
            if self.imported_modules[k].eq(&module_key) {
                already = true;
            }
            k += 1;
        }
        if !already {
            self.imported_modules.push(clone_string(&module_key));
        }
        let mut file = clone_string(&self.project_root);
        file.append("/");
        file.append(join_path(path, "/").as_str());
        file.append(".my");
        let code = self.module_sources[idx].1.as_str();
        let chars = str_chars(code);
        if chars.len() > usize::MAX / 4 {
            return Err(SemanticError::ParseErrorInModule { file, error: String::from_str("source too large") });
        }
        let tokens = lex(code);
        let mut parser = Parser::new(&tokens);
        let ast = match parser.parse_program() {
            Ok(a) => a,
            Err(e) => {
                return Err(SemanticError::ParseErrorInModule { file, error: e.message() });
            },
        };
        let mut nodes = match ast {
            AstNode::Program(v) => v,
            _ => {
                return Ok(());
            },
        };
        let mut sub = SemanticAnalyzer::new(Some(clone_string(&self.project_root)));
        sub.is_entry = false;
        let mut j: usize = 0;
        while j < self.module_sources.len()
            invariant
                j <= self.module_sources.len(),
                idx < self.module_sources.len(),
                sub.module_sources@.len() <= j - (if j > idx { 1int } else { 0int }),
                sub.loop_depth == 0,
                sub.scope_stack@.len() == 0,
            decreases self.module_sources.len() - j,
        {
            if j != idx {
                let entry = (
                    crate::analyzer::analyzer::copy_strings(&self.module_sources[j].0),
                    clone_string(&self.module_sources[j].1),
                );
                sub.module_sources.push(entry);
            }
            j += 1;
        }
        assert(sub.module_sources@.len() < old(self).module_sources@.len());
        sub.analyze_program(&mut nodes)?;
        while nodes.len() > 0
            invariant
                self.keeps_setup(old(self)),
                self.symbol_table == old(self).symbol_table,
                self.loop_depth == old(self).loop_depth,
                self.scope_stack == old(self).scope_stack,
                self.outer_symbol_table == old(self).outer_symbol_table,
            decreases nodes.len(),
        {
            let node = nodes.remove(0);
            let wanted = match &node {
                AstNode::FunctionDecl { name, .. } => if is_public_name(name) {
                    match symbol {
                        Some(sym) => name.eq(sym),
                        None => true,
                    }
                } else {
                    false
                },
                _ => false,
            };
            if wanted {
                if let AstNode::FunctionDecl { name, .. } = &node {
                    let fname = clone_string(name);
                    match sub.function_table.get(&fname) {
                        Some(sig) => {
                            let sig2 = sig.duplicate();
                            self.function_table.insert(clone_string(&fname), sig2);
                        },
                        None => {},
                    }
                    if !self.has_imported_function(&fname) {
                        self.imported_functions.push(node);
                    }
                }
            }
        }
        if let Some(sym) = symbol {
            if !self.function_table.contains_key(sym) && !self.symbol_table.contains_key(sym) {
                return Err(SemanticError::UndeclaredFunction(NamedError { name: clone_string(sym) }));
            }
        }
        Ok(())
    }

    /// Registers a function declaration's signature: parameter types (`Int`
    /// where none is written) and return type (`Void` where none is written).
    fn register_function(&mut self, name: &String, params: &Vec<(String, Option<TypeNode>)>, return_type: &Option<TypeNode>)
        ensures
            final(self).same_but_functions(old(self)),
            final(self).function_table@ == old(self).function_table@.insert(name@, sig_of(params@, *return_type)),
    {
        let mut param_types: Vec<TypeNode> = Vec::new();
        let mut i: usize = 0;
        while i < params.len()
            invariant
                i <= params.len(),
                param_types@.len() == i,
                forall|j: int| 0 <= j < i ==> (#[trigger] param_types@[j]).model() == param_model(params@[j].1),
            decreases params.len() - i,
        {
            let t = match &params[i].1 {
                Some(t) => t.duplicate(),
                None => TypeNode::Int,
            };
            param_types.push(t);
            i += 1;
        }
        let ret = match return_type {
            Some(t) => t.duplicate(),
            None => TypeNode::Void,
        };
        proof {
            crate::parser::ast::lemma_models(param_types@);
            assert(models(param_types@) =~= sig_of(params@, *return_type).0);
        }
        self.function_table.insert(clone_string(name), FnSig { params: param_types, ret });
    }

    /// Analyzes a list of statements (a program, a block or a function body)
    /// in two passes: first imports are processed and function signatures
    /// registered, so calls may come before declarations; then every
    /// statement other than an import is analyzed. An entry module must
    /// declare `main`.
    pub fn analyze_program(&mut self, nodes: &mut Vec<AstNode>) -> (r: Result<(), SemanticError>)
        ensures
            final(self).keeps_setup(old(self)),
            r is Ok ==> final(self).restores_nesting(old(self)),
            final(nodes)@.len() == old(nodes)@.len(),
            r is Ok ==> forall|i: int|
                0 <= i < old(nodes)@.len() ==> (#[trigger] old(nodes)@[i] matches AstNode::FunctionDecl { name, .. }
                    ==> final(self).function_table@.contains_key(name@)),
            (exists|i: int, j: int|
                0 <= i < j < old(nodes)@.len() && (#[trigger] old(nodes)@[i]) is FunctionDecl && (#[trigger] old(
                    nodes,
                )@[j]) is FunctionDecl && old(nodes)@[i]->FunctionDecl_name@ == old(nodes)@[j]->FunctionDecl_name@) ==> r is Err,
            (exists|i: int|
                0 <= i < old(nodes)@.len() && (#[trigger] old(nodes)@[i]) is FunctionDecl && old(
                    self,
                ).function_table@.contains_key(old(nodes)@[i]->FunctionDecl_name@)) ==> r is Err,
            (r is Ok && old(self).is_entry && old(self).at_module_top()) ==> final(self).function_table@.contains_key("main"@),
            all_simple(old(nodes)@) ==> (r is Ok <==> old(self).main_rule_ok() && old(self).all_simple_ok(old(nodes)@)),
            all_simple(old(nodes)@) ==> *final(self) == *old(self) && final(nodes)@ == old(nodes)@,
            all_decl_or_simple(old(nodes)@) ==> (r is Ok <==> old(self).program_ok(old(nodes)@)),
            (all_decl_or_simple(old(nodes)@) && ((exists|i: int, j: int|
                0 <= i < j < old(nodes)@.len() && (#[trigger] old(nodes)@[i]) is FunctionDecl && (#[trigger] old(
                    nodes,
                )@[j]) is FunctionDecl && old(nodes)@[i]->FunctionDecl_name@ == old(nodes)@[j]->FunctionDecl_name@) || (
            exists|i: int|
                0 <= i < old(nodes)@.len() && (#[trigger] old(nodes)@[i]) is FunctionDecl && old(
                    self,
                ).function_table@.contains_key(old(nodes)@[i]->FunctionDecl_name@)))) ==> r matches Err(
                SemanticError::FunctionRedeclaration(_),
            ),
        decreases old(self).module_sources@.len(), nodes_size(old(nodes)@), 3nat,
    {
        let mut i: usize = 0;
        while i < nodes.len()
            invariant
                self.keeps_setup(old(self)),
                self.symbol_table == old(self).symbol_table,
                self.loop_depth == old(self).loop_depth,
                self.scope_stack == old(self).scope_stack,
                self.outer_symbol_table == old(self).outer_symbol_table,
                *nodes == *old(nodes),
                i <= nodes.len(),
                forall|a: int|
                    0 <= a < i ==> ((#[trigger] nodes@[a]) matches AstNode::FunctionDecl { name, .. }
                        ==> self.function_table@.contains_key(name@)),
                forall|a: int, b: int|
                    0 <= a < b < i ==> !((#[trigger] nodes@[a]) is FunctionDecl && (#[trigger] nodes@[b]) is FunctionDecl
                        && nodes@[a]->FunctionDecl_name@ == nodes@[b]->FunctionDecl_name@),
                all_decl_or_simple(old(nodes)@) ==> self.function_table@ == registered(
                    old(self).function_table@,
                    nodes@.take(i as int),
                ),
                forall|a: int|
                    0 <= a < i ==> !((#[trigger] nodes@[a]) is FunctionDecl && old(self).function_table@.contains_key(
                        nodes@[a]->FunctionDecl_name@,
                    )),
                all_simple(old(nodes)@) ==> *self == *old(self),
            decreases nodes.len() - i,
        {
            proof {
                lemma_nodes_size_elem(nodes@, i as int);
            }
            match &nodes[i] {
                AstNode::Import { path, symbol } => {
                    self.import_module(path, symbol)?;
                },
                AstNode::FunctionDecl { name, params, return_type, .. } => {
                    if self.function_table.contains_key(name) {
                        proof {
                            if all_decl_or_simple(old(nodes)@) {
                                lemma_registered_keys(old(self).function_table@, nodes@.take(i as int), name@);
                                if !old(self).function_table@.contains_key(name@) {
                                    let j = choose|j: int|
                                        0 <= j < i && (#[trigger] nodes@.take(i as int)[j]) is FunctionDecl && nodes@.take(
                                            i as int,
                                        )[j]->FunctionDecl_name@ == name@;
                                    assert(old(nodes)@[j] == nodes@.take(i as int)[j]);
                                    assert(old(nodes)@[i as int] is FunctionDecl);
                                }
                            }
                        }
                        return Err(SemanticError::FunctionRedeclaration(NamedError { name: clone_string(name) }));
                    }
                    self.register_function(name, params, return_type);
                },
                _ => {},
            }
            proof {
                let t = nodes@.take(i + 1);
                assert(t.drop_last() =~= nodes@.take(i as int));
                assert(t.last() == nodes@[i as int]);
            }
            i += 1;
        }
        proof {
            assert(nodes@.take(nodes.len() as int) =~= nodes@);
        }
        if self.is_entry && self.outer_symbol_table.is_none() && self.scope_stack.len() == 0 && self.loop_depth == 0 {
            let main_name = String::from_str("main");
            proof {
                reveal_strlit("main");
            }
            if !self.function_table.contains_key(&main_name) {
                return Err(SemanticError::UndeclaredFunction(NamedError { name: main_name }));
            }
        }
        let ghost first = *self;
        let mut i: usize = 0;
        while i < nodes.len()
            invariant
                self.keeps_setup(&first),
                first.keeps_setup(old(self)),
                self.restores_nesting(old(self)),
                nodes@.len() == old(nodes)@.len(),
                i <= nodes.len(),
                forall|a: int| i <= a < nodes.len() ==> nodes@[a] == old(nodes)@[a],
                forall|a: int|
                    0 <= a < old(nodes)@.len() ==> ((#[trigger] old(nodes)@[a]) matches AstNode::FunctionDecl { name, .. }
                        ==> first.function_table@.contains_key(name@)),
                (old(self).is_entry && old(self).at_module_top()) ==> first.function_table@.contains_key("main"@),
                all_simple(old(nodes)@) ==> *self == *old(self) && nodes@ == old(nodes)@ && old(self).main_rule_ok()
                    && forall|a: int| 0 <= a < i ==> old(self).simple_node_ok(#[trigger] old(nodes)@[a]),
                all_decl_or_simple(old(nodes)@) ==> {
                    &&& self.symbol_table@ == old(self).symbol_table@
                    &&& self.function_table@ == registered(old(self).function_table@, old(nodes)@)
                    &&& self.loop_depth == old(self).loop_depth
                    &&& first.symbol_table@ == old(self).symbol_table@
                    &&& first.function_table@ == registered(old(self).function_table@, old(nodes)@)
                    &&& first.loop_depth == old(self).loop_depth
                    &&& forall|a: int| 0 <= a < i ==> first.node_ok(#[trigger] old(nodes)@[a])
                    &&& forall|a: int, b: int|
                        0 <= a < b < old(nodes)@.len() ==> !((#[trigger] old(nodes)@[a]) is FunctionDecl && (#[trigger] old(
                            nodes,
                        )@[b]) is FunctionDecl && old(nodes)@[a]->FunctionDecl_name@ == old(nodes)@[b]->FunctionDecl_name@)
                    &&& forall|a: int|
                        0 <= a < old(nodes)@.len() ==> !((#[trigger] old(nodes)@[a]) is FunctionDecl && old(
                            self,
                        ).function_table@.contains_key(old(nodes)@[a]->FunctionDecl_name@))
                },
            decreases nodes.len() - i,
        {
            proof {
                lemma_nodes_size_elem(old(nodes)@, i as int);
            }
            let is_import = matches!(nodes[i], AstNode::Import { .. });
            if !is_import {
                let ghost before = nodes@;
                let ghost at = *self;
                let outcome = self.analyze_node(&mut nodes[i]);
                proof {
                    if all_simple(old(nodes)@) {
                        assert(simple_node(old(nodes)@[i as int]));
                        assert(nodes@ =~= before);
                    }
                    if all_decl_or_simple(old(nodes)@) {
                        let n = old(nodes)@[i as int];
                        assert(decl_or_simple(n));
                        if simple_node(n) {
                            lemma_simple_ok_tables(at, first, seq![n]);
                            assert(at.all_simple_ok(seq![n]) ==> at.simple_node_ok(seq![n][0]));
                            assert(first.all_simple_ok(seq![n]) ==> first.simple_node_ok(seq![n][0]));
                            assert(at.simple_node_ok(n) ==> at.all_simple_ok(seq![n]));
                            assert(first.simple_node_ok(n) ==> first.all_simple_ok(seq![n]));
                            assert(outcome is Ok <==> first.node_ok(n));
                        } else {
                            assert(outcome is Ok <==> first.node_ok(n));
                        }
                        if outcome is Err {
                            assert forall|t: SemanticAnalyzer|
                                t.symbol_table@ == old(self).symbol_table@ && t.function_table@ == registered(
                                    old(self).function_table@,
                                    old(nodes)@,
                                ) && t.loop_depth == old(self).loop_depth implies !#[trigger] t.nodes_ok(old(nodes)@) by {
                                if simple_node(n) {
                                    lemma_simple_ok_tables(t, first, seq![n]);
                                    assert(t.all_simple_ok(seq![n]) ==> t.simple_node_ok(seq![n][0]));
                                    assert(t.simple_node_ok(n) ==> t.all_simple_ok(seq![n]));
                                }
                                assert(!t.node_ok(old(nodes)@[i as int]));
                            }
                        }
                    }
                }
                outcome?;
            }
            i += 1;
        }
        proof {
            if all_decl_or_simple(old(nodes)@) {
                assert(first.nodes_ok(old(nodes)@));
            }
        }
        Ok(())
    }

    /// Analyzes one statement or expression. Declarations, assignments,
    /// `print`, `if`, `for` and blocks go to their own analysis (a block gets
    /// a scope of its own); `break` and `continue` must be inside a loop;
    /// the values of a `return` must be well-typed; a call must be to a
    /// declared function with fitting arguments; any other expression must
    /// be well-typed.
    pub fn analyze_node(&mut self, node: &mut AstNode) -> (r: Result<(), SemanticError>)
        ensures
            final(self).keeps_setup(old(self)),
            r is Ok ==> final(self).restores_nesting(old(self)),
            !mutating(*old(node)) ==> *final(self) == *old(self) && *final(node) == *old(node),
            *old(node) matches AstNode::Print { exprs } ==> ((forall|i: int|
                0 <= i < exprs.len() ==> plain_expression(#[trigger] exprs@[i])) ==> *final(self) == *old(self)
                && *final(node) == *old(node) && (r is Ok <==> old(self).simple_node_ok(*old(node)))),
            (*old(node) is Break || *old(node) is Continue) ==> (r is Err <==> old(self).loop_depth == 0),
            *old(node) matches AstNode::Return { values } ==> (r is Ok <==> forall|i: int|
                0 <= i < values.len() ==> old(self).inferred(#[trigger] values@[i]) is Some),
            plain_expression(*old(node)) ==> (r is Ok <==> old(self).expression_ok(*old(node))),
            *old(node) matches AstNode::Assignment { pattern, value } ==> (r is Ok <==> old(self).assignment_ok(
                pattern.model(),
                *value,
            )),
            *old(node) matches AstNode::LetDecl { mutable, type_annotation, pattern, value, .. } ==> (r is Ok
                <==> old(self).let_outcome(mutable, crate::parser::ast::opt_model(type_annotation), pattern.model(), *value) is Some),
            (*old(node) is Block && r is Ok) ==> final(self).symbol_table@ == old(self).symbol_table@,
            (*old(node) is ConditionalStmt && r is Ok) ==> final(self).symbol_table@ == old(self).symbol_table@,
            (*old(node) is ForLoopStmt && r is Ok) ==> final(self).symbol_table@ == old(self).symbol_table@,
            *old(node) matches AstNode::ConditionalStmt { condition, .. } ==> (old(self).inferred(*condition) != Some(
                TypeModel::Bool,
            ) ==> r is Err),
            *old(node) matches AstNode::FunctionDecl { name, visibility, params, return_type, body } ==> (all_simple(body@)
                ==> {
                &&& r is Ok <==> old(self).fn_decl_ok(name@, visibility@, params@, return_type, body@)
                &&& r is Ok ==> final(self).symbol_table@ == old(self).symbol_table@ && final(self).function_table@
                    == old(self).function_table@ && final(self).loop_depth == old(self).loop_depth
            }),
        decreases old(self).module_sources@.len(), node_size(*old(node)), 2nat,
    {
        if !is_mutating(node) {
            return self.analyze_plain_node(node);
        }
        match node {
            AstNode::LetDecl { .. } => self.analyze_let_decl(node),
            AstNode::FunctionDecl { name, visibility, params, return_type, body } => {
                let n = clone_string(name);
                let v = clone_string(visibility);
                self.analyze_functional_decl(n.as_str(), v.as_str(), params, return_type, body)
            },
            AstNode::StructDecl { .. } => self.analyze_struct(node),
            AstNode::EnumDecl { .. } => self.analyze_enum(node),
            AstNode::Assignment { pattern, value } => self.analyze_assignment(pattern, value),
            AstNode::Print { .. } => self.analyze_print(node),
            AstNode::ConditionalStmt { condition, then_block, else_branch } => self.analyze_conditional_stmt(
                condition,
                then_block,
                else_branch,
            ),
            AstNode::ForLoopStmt { pattern, iterable, body } => {
                let it: Option<&mut AstNode> = match iterable {
                    Some(b) => Some(&mut **b),
                    None => None,
                };
                self.analyze_for_stmt(pattern, it, body)
            },
            AstNode::Block(nodes) => {
                let ghost stack0 = self.scope_stack@;
                let parent_scope = self.symbol_table.duplicate();
                self.scope_stack.push(parent_scope);
                self.symbol_table = NameMap::new();
                let result = self.analyze_program(nodes);
                match self.scope_stack.pop() {
                    Some(prev) => {
                        self.symbol_table = prev;
                    },
                    None => {},
                }
                assert(result is Ok ==> self.scope_stack@ =~= stack0);
                result
            },
            _ => Ok(()),
        }
    }

    /// `analyze_node` of a node that changes nothing: an import (already
    /// handled), `return`, `break`, `continue`, or an expression.
    pub(crate) fn analyze_plain_node(&self, node: &AstNode) -> (r: Result<(), SemanticError>)
        requires
            !mutating(*node),
        ensures
            (*node is Break || *node is Continue) ==> (r is Err <==> self.loop_depth == 0),
            *node matches AstNode::Return { values } ==> (r is Ok <==> forall|i: int|
                0 <= i < values.len() ==> self.inferred(#[trigger] values@[i]) is Some),
            plain_expression(*node) ==> (r is Ok <==> self.expression_ok(*node)),
    {
        match node {
            AstNode::Import { .. } => Ok(()),
            AstNode::Return { values } => {
                let mut i: usize = 0;
                while i < values.len()
                    invariant
                        *node == (AstNode::Return { values: *values }),
                        i <= values.len(),
                        forall|j: int| 0 <= j < i ==> self.inferred(#[trigger] values@[j]) is Some,
                    decreases values.len() - i,
                {
                    self.infer_type(&values[i])?;
                    i += 1;
                }
                Ok(())
            },
            AstNode::Break => {
                if self.loop_depth == 0 {
                    return Err(SemanticError::UnexpectedNode { expected: String::from_str("break inside loop") });
                }
                Ok(())
            },
            AstNode::Continue => {
                if self.loop_depth == 0 {
                    return Err(SemanticError::UnexpectedNode { expected: String::from_str("continue inside loop") });
                }
                Ok(())
            },
            AstNode::FunctionCall { func, args } => {
                self.check_function_call(func, args)?;
                Ok(())
            },
            _ => {
                self.infer_type(node)?;
                Ok(())
            },
        }
    }
}

/// Whether analyzing the node can change the analyzer (see `mutating`).
pub(crate) fn is_mutating(node: &AstNode) -> (r: bool)
    ensures
        r == mutating(*node),
{
    match node {
        AstNode::LetDecl { .. } | AstNode::FunctionDecl { .. } | AstNode::StructDecl { .. } | AstNode::EnumDecl {
            ..
        } | AstNode::Assignment { .. } | AstNode::Print { .. } | AstNode::ConditionalStmt { .. }
        | AstNode::ForLoopStmt { .. } | AstNode::Block(_) => true,
        _ => false,
    }
}

/// A copy of a list of strings.
pub fn copy_strings(v: &Vec<String>) -> (r: Vec<String>)
    ensures
        r@.len() == v@.len(),
        forall|i: int| 0 <= i < v@.len() ==> (#[trigger] r@[i])@ == v@[i]@,
{
    let mut out: Vec<String> = Vec::new();
    let mut i: usize = 0;
    while i < v.len()
        invariant
            i <= v.len(),
            out@.len() == i,
            forall|j: int| 0 <= j < i ==> (#[trigger] out@[j])@ == v@[j]@,
        decreases v.len() - i,
    {
        out.push(clone_string(&v[i]));
        i += 1;
    }
    out
}

} // verus!
