use crate::analyzer::analyzer::{nodes_size, SemanticAnalyzer, SymbolInfo, SymbolModel};
use crate::analyzer::statements::{rc_type, spread, symbol_of, targets_of};
use crate::analyzer::types::{NamedError, SemanticError, TypeMismatch};
use crate::parser::ast::{
    clone_string, field_models, lemma_field_models, lemma_models, lemma_pattern_models, lemma_variant_models,
    models, opt_model, pattern_models, type_eq, variant_models, AstNode, Pattern, PatternModel, TypeModel,
    TypeNode,
};
use vstd::prelude::*;
use vstd::string::StringExecFns;

verus! {

broadcast use vstd::std_specs::vec::group_vec_axioms;

/// Some name occurs twice among the first components.
pub open spec fn has_duplicate_names<T>(v: Seq<(String, T)>) -> bool {
    exists|i: int, j: int| 0 <= i < j < v.len() && (#[trigger] v[i]).0@ == (#[trigger] v[j]).0@
}

/// A statement list returns on every path: some statement is a `return`,
/// an `if` whose both branches return, or a block that returns.
pub open spec fn has_return(nodes: Seq<AstNode>) -> bool
    decreases nodes,
{
    exists|i: int| 0 <= i < nodes.len() && stmt_returns(#[trigger] nodes[i])
}

/// A statement returns on every path (see `has_return`).
pub open spec fn stmt_returns(n: AstNode) -> bool
    decreases n,
{
    match n {
        AstNode::Return { .. } => true,
        AstNode::ConditionalStmt { then_block, else_branch, .. } => has_return(then_block@) && match else_branch {
            Some(b) => stmt_returns(*b),
            None => false,
        },
        AstNode::Block(inner) => has_return(inner@),
        _ => false,
    }
}

/// An empty array or map literal takes the collection type it is declared with.
pub open spec fn empty_literal_fits(annotation: Option<TypeModel>, value: AstNode) -> bool {
    match (annotation, value) {
        (Some(TypeModel::Array(_)), AstNode::ArrayLiteral(els)) => els.len() == 0,
        (Some(TypeModel::MapOf(_, _)), AstNode::MapLiteral(ps)) => ps.len() == 0,
        _ => false,
    }
}

/// The table after a `let` binds its targets to the types at the same
/// position, or `None` when a name starts with `_` or, at the top of a
/// function, redeclares a variable that is not a parameter.
pub open spec fn let_bind(
    t: Map<Seq<char>, SymbolModel>,
    targets: Seq<PatternModel>,
    types: Seq<TypeModel>,
    mutable: bool,
    top: bool,
) -> Option<Map<Seq<char>, SymbolModel>>
    decreases targets.len(),
{
    if targets.len() == 0 || types.len() == 0 {
        Some(t)
    } else {
        match targets[0] {
            PatternModel::Identifier(n) => if n.len() > 0 && n[0] == '_' {
                None
            } else if top && t.contains_key(n) && !t[n].is_parameter {
                None
            } else {
                let_bind(t.insert(n, symbol_of(types[0], mutable)), targets.drop_first(), types.drop_first(), mutable, top)
            },
            _ => let_bind(t, targets.drop_first(), types.drop_first(), mutable, top),
        }
    }
}

impl SemanticAnalyzer {
    /// The type a `let` gives its value: the declared collection type of an
    /// empty literal, else the first type the right side gives, which must
    /// equal the annotation when there is one.
    pub open spec fn let_type(&self, annotation: Option<TypeModel>, value: AstNode) -> Option<TypeModel> {
        if empty_literal_fits(annotation, value) {
            annotation
        } else {
            match self.rhs_types(value, 1) {
                Some(rs) => if rs.len() > 0 && (annotation is None || annotation == Some(rs[0])) {
                    Some(rs[0])
                } else {
                    None
                },
                None => None,
            }
        }
    }

    /// A `return` with these values fits the expected type: one value of that
    /// type, or for a tuple type one value per element type.
    pub open spec fn single_return_ok(&self, values: Seq<AstNode>, expected: TypeModel) -> bool {
        match expected {
            TypeModel::Tuple(es) => values.len() == es.len() && forall|i: int|
                0 <= i < values.len() ==> self.inferred(#[trigger] values[i]) == Some(es[i]),
            _ => values.len() == 1 && self.inferred(values[0]) == Some(expected),
        }
    }

    /// Every `return` reachable through `if` branches and blocks fits the
    /// expected type.
    pub open spec fn returns_ok(&self, nodes: Seq<AstNode>, expected: TypeModel) -> bool
        decreases nodes,
    {
        forall|i: int| 0 <= i < nodes.len() ==> self.stmt_returns_ok(#[trigger] nodes[i], expected)
    }

    /// `returns_ok` of one statement.
    pub open spec fn stmt_returns_ok(&self, n: AstNode, expected: TypeModel) -> bool
        decreases n,
    {
        match n {
            AstNode::Return { values } => self.single_return_ok(values@, expected),
            AstNode::ConditionalStmt { then_block, else_branch, .. } => self.returns_ok(then_block@, expected)
                && match else_branch {
                Some(b) => self.stmt_returns_ok(*b, expected),
                None => true,
            },
            AstNode::Block(inner) => self.returns_ok(inner@, expected),
            _ => true,
        }
    }

    /// Whether the statements return on every path (see `has_return`).
    pub(crate) fn has_return_statement(&self, nodes: &Vec<AstNode>) -> (r: bool)
        ensures
            r == has_return(nodes@),
        decreases nodes,
    {
        let mut i: usize = 0;
        while i < nodes.len()
            invariant
                i <= nodes.len(),
                forall|j: int| 0 <= j < i ==> !stmt_returns(#[trigger] nodes@[j]),
            decreases nodes.len() - i,
        {
            assert(decreases_to!(*nodes => nodes@[i as int]));
            if self.statement_returns(&nodes[i]) {
                return true;
            }
            i += 1;
        }
        false
    }

    /// Whether one statement returns on every path (see `stmt_returns`).
    fn statement_returns(&self, node: &AstNode) -> (r: bool)
        ensures
            r == stmt_returns(*node),
        decreases node,
    {
        match node {
            AstNode::Return { .. } => true,
            AstNode::ConditionalStmt { then_block, else_branch, .. } => {
                let then_has = self.has_return_statement(then_block);
                let else_has = match else_branch {
                    Some(b) => self.statement_returns(b),
                    None => false,
                };
                then_has && else_has
            },
            AstNode::Block(inner) => self.has_return_statement(inner),
            _ => false,
        }
    }

    /// Fails with `MissingFunctionReturn` unless the body returns on every path.
    pub(crate) fn ensure_has_return(&self, body: &Vec<AstNode>, fn_name: &str) -> (r: Result<(), SemanticError>)
        ensures
            r is Ok <==> has_return(body@),
            r matches Err(e) ==> e is MissingFunctionReturn,
    {
        if !self.has_return_statement(body) {
            return Err(SemanticError::MissingFunctionReturn { function: String::from_str(fn_name) });
        }
        Ok(())
    }

    /// The types of the given values, as the message of a mismatch shows them.
    fn value_types(&self, values: &Vec<AstNode>) -> (r: Result<Vec<TypeNode>, SemanticError>)
        ensures
            r is Ok <==> forall|i: int| 0 <= i < values.len() ==> self.inferred(#[trigger] values@[i]) is Some,
            r matches Ok(v) ==> v.len() == values.len() && forall|i: int|
                0 <= i < values.len() ==> self.inferred(#[trigger] values@[i]) == Some(v@[i].model()),
    {
        let mut out: Vec<TypeNode> = Vec::new();
        let mut i: usize = 0;
        while i < values.len()
            invariant
                i <= values.len(),
                out.len() == i,
                forall|j: int| 0 <= j < i ==> self.inferred(#[trigger] values@[j]) == Some(out@[j].model()),
            decreases values.len() - i,
        {
            let t = self.infer_type(&values[i])?;
            out.push(t);
            i += 1;
        }
        Ok(out)
    }

    /// Checks one `return` against the expected type (see `single_return_ok`).
    fn verify_single_return(&self, values: &Vec<AstNode>, expected: &TypeNode, fn_name: &str) -> (r: Result<
        (),
        SemanticError,
    >)
        ensures
            r is Ok <==> self.single_return_ok(values@, expected.model()),
    {
        match expected {
            TypeNode::Tuple(expected_vec) => {
                proof {
                    lemma_models(expected_vec@);
                }
                if values.len() != expected_vec.len() {
                    let found = self.value_types(values)?;
                    return Err(
                        SemanticError::ReturnTypeMismatch {
                            function: String::from_str(fn_name),
                            mismatch: TypeMismatch {
                                expected: expected.duplicate(),
                                found: TypeNode::Tuple(found),
                                value: None,
                                line: None,
                                col: None,
                            },
                        },
                    );
                }
                let mut i: usize = 0;
                while i < values.len()
                    invariant
                        *expected == TypeNode::Tuple(*expected_vec),
                        values.len() == expected_vec.len(),
                        i <= values.len(),
                        models(expected_vec@).len() == expected_vec.len(),
                        forall|j: int| 0 <= j < expected_vec.len() ==> #[trigger] models(expected_vec@)[j] == expected_vec@[j].model(),
                        forall|j: int| 0 <= j < i ==> self.inferred(#[trigger] values@[j]) == Some(models(expected_vec@)[j]),
                    decreases values.len() - i,
                {
                    let value_type = match self.infer_type(&values[i]) {
                        Ok(t) => t,
                        Err(e) => {
                            assert(self.inferred(values@[i as int]) != Some(models(expected_vec@)[i as int]));
                            return Err(e);
                        },
                    };
                    if !type_eq(&value_type, &expected_vec[i]) {
                        assert(self.inferred(values@[i as int]) != Some(models(expected_vec@)[i as int]));
                        return Err(
                            SemanticError::ReturnTypeMismatch {
                                function: String::from_str(fn_name),
                                mismatch: TypeMismatch {
                                    expected: expected_vec[i].duplicate(),
                                    found: value_type,
                                    value: None,
                                    line: None,
                                    col: None,
                                },
                            },
                        );
                    }
                    i += 1;
                }
                Ok(())
            },
            _ => {
                if values.len() != 1 {
                    let found = self.value_types(values)?;
                    return Err(
                        SemanticError::ReturnTypeMismatch {
                            function: String::from_str(fn_name),
                            mismatch: TypeMismatch {
                                expected: expected.duplicate(),
                                found: TypeNode::Tuple(found),
                                value: None,
                                line: None,
                                col: None,
                            },
                        },
                    );
                }
                let value_type = self.infer_type(&values[0])?;
                if !type_eq(&value_type, expected) {
                    return Err(
                        SemanticError::ReturnTypeMismatch {
                            function: String::from_str(fn_name),
                            mismatch: TypeMismatch {
                                expected: expected.duplicate(),
                                found: value_type,
                                value: None,
                                line: None,
                                col: None,
                            },
                        },
                    );
                }
                Ok(())
            },
        }
    }

    /// Checks every `return` reachable through `if` branches and blocks
    /// (see `returns_ok`).
    pub(crate) fn verify_return_types(&self, nodes: &Vec<AstNode>, expected: &TypeNode, fn_name: &str) -> (r: Result<
        (),
        SemanticError,
    >)
        ensures
            r is Ok <==> self.returns_ok(nodes@, expected.model()),
        decreases nodes,
    {
        let mut i: usize = 0;
        while i < nodes.len()
            invariant
                i <= nodes.len(),
                forall|j: int| 0 <= j < i ==> self.stmt_returns_ok(#[trigger] nodes@[j], expected.model()),
            decreases nodes.len() - i,
        {
            assert(decreases_to!(*nodes => nodes@[i as int]));
            match self.verify_statement_returns(&nodes[i], expected, fn_name) {
                Ok(()) => {},
                Err(e) => {
                    assert(!self.stmt_returns_ok(nodes@[i as int], expected.model()));
                    return Err(e);
                },
            }
            i += 1;
        }
        Ok(())
    }

    /// `verify_return_types` of one statement.
    fn verify_statement_returns(&self, node: &AstNode, expected: &TypeNode, fn_name: &str) -> (r: Result<
        (),
        SemanticError,
    >)
        ensures
            r is Ok <==> self.stmt_returns_ok(*node, expected.model()),
        decreases node,
    {
        match node {
            AstNode::Return { values } => self.verify_single_return(values, expected, fn_name),
            AstNode::ConditionalStmt { then_block, else_branch, .. } => {
                self.verify_return_types(then_block, expected, fn_name)?;
                match else_branch {
                    Some(b) => self.verify_statement_returns(b, expected, fn_name),
                    None => Ok(()),
                }
            },
            AstNode::Block(inner) => self.verify_return_types(inner, expected, fn_name),
            _ => Ok(()),
        }
    }

    /// Declares a struct type (see `struct_symbol`): fails when the name is
    /// taken in this scope or a field name repeats.
    pub fn analyze_struct(&mut self, node: &AstNode) -> (r: Result<(), SemanticError>)
        ensures
            final(self).same_but_symbols(old(self)),
            !(node is StructDecl) ==> r is Ok && final(self).symbol_table@ == old(self).symbol_table@,
            node matches AstNode::StructDecl { name, fields } ==> {
                &&& (r is Ok <==> !old(self).symbol_table@.contains_key(name@) && !has_duplicate_names(fields@))
                &&& old(self).symbol_table@.contains_key(name@) ==> (r matches Err(SemanticError::StructRedeclaration(_)))
                &&& r is Ok ==> final(self).symbol_table@ == old(self).symbol_table@.insert(
                    name@,
                    SymbolModel {
                        ty: TypeModel::Struct(name@, field_models(fields@)),
                        mutable: false,
                        is_ref_counted: true,
                        is_parameter: false,
                    },
                )
                &&& r is Err ==> final(self).symbol_table@ == old(self).symbol_table@
            },
    {
        if let AstNode::StructDecl { name, fields } = node {
            if self.symbol_table.contains_key(name) {
                return Err(SemanticError::StructRedeclaration(NamedError { name: clone_string(name) }));
            }
            let mut i: usize = 1;
            while i < fields.len()
                invariant
                    *node == (AstNode::StructDecl { name: *name, fields: *fields }),
                    *self == *old(self),
                    !self.symbol_table@.contains_key(name@),
                    1 <= i <= fields.len() || fields.len() == 0,
                    forall|a: int, b: int| 0 <= a < b < i && b < fields.len() ==> (#[trigger] fields@[a]).0@ != (#[trigger] fields@[b]).0@,
                decreases fields.len() - i,
            {
                let mut k: usize = 0;
                while k < i
                    invariant
                        *node == (AstNode::StructDecl { name: *name, fields: *fields }),
                        *self == *old(self),
                        !self.symbol_table@.contains_key(name@),
                        k <= i < fields.len(),
                        forall|a: int| 0 <= a < k ==> (#[trigger] fields@[a]).0@ != fields@[i as int].0@,
                    decreases i - k,
                {
                    if fields[k].0.eq(&fields[i].0) {
                        assert(fields@[k as int].0@ == fields@[i as int].0@);
                        return Err(
                            SemanticError::DuplicateField {
                                struct_name: clone_string(name),
                                field: clone_string(&fields[i].0),
                            },
                        );
                    }
                    k += 1;
                }
                i += 1;
            }
            let mut copied: Vec<(String, TypeNode)> = Vec::new();
            let mut j: usize = 0;
            while j < fields.len()
                invariant
                    j <= fields.len(),
                    copied.len() == j,
                    forall|a: int| 0 <= a < j ==> (#[trigger] copied@[a]).0@ == fields@[a].0@ && copied@[a].1.model() == fields@[a].1.model(),
                decreases fields.len() - j,
            {
                copied.push((clone_string(&fields[j].0), fields[j].1.duplicate()));
                j += 1;
            }
            proof {
                lemma_field_models(copied@);
                lemma_field_models(fields@);
                assert(field_models(copied@) =~= field_models(fields@));
            }
            self.symbol_table.insert(
                clone_string(name),
                SymbolInfo {
                    ty: TypeNode::Struct(clone_string(name), copied),
                    mutable: false,
                    is_ref_counted: true,
                    is_parameter: false,
                },
            );
        }
        Ok(())
    }

    /// Declares an enum type: fails when the name is taken in this scope or a
    /// variant name repeats.
    pub fn analyze_enum(&mut self, node: &AstNode) -> (r: Result<(), SemanticError>)
        ensures
            final(self).same_but_symbols(old(self)),
            !(node is EnumDecl) ==> r is Ok && final(self).symbol_table@ == old(self).symbol_table@,
            node matches AstNode::EnumDecl { name, variants } ==> {
                &&& (r is Ok <==> !old(self).symbol_table@.contains_key(name@) && !has_duplicate_names(variants@))
                &&& old(self).symbol_table@.contains_key(name@) ==> (r matches Err(SemanticError::EnumRedeclaration(_)))
                &&& r is Ok ==> final(self).symbol_table@ == old(self).symbol_table@.insert(
                    name@,
                    SymbolModel {
                        ty: TypeModel::Enum(name@, variant_models(variants@)),
                        mutable: false,
                        is_ref_counted: true,
                        is_parameter: false,
                    },
                )
                &&& r is Err ==> final(self).symbol_table@ == old(self).symbol_table@
            },
    {
        if let AstNode::EnumDecl { name, variants } = node {
            if self.symbol_table.contains_key(name) {
                return Err(SemanticError::EnumRedeclaration(NamedError { name: clone_string(name) }));
            }
            let mut i: usize = 1;
            while i < variants.len()
                invariant
                    *node == (AstNode::EnumDecl { name: *name, variants: *variants }),
                    *self == *old(self),
                    !self.symbol_table@.contains_key(name@),
                    1 <= i <= variants.len() || variants.len() == 0,
                    forall|a: int, b: int| 0 <= a < b < i && b < variants.len() ==> (#[trigger] variants@[a]).0@ != (#[trigger] variants@[b]).0@,
                decreases variants.len() - i,
            {
                let mut k: usize = 0;
                while k < i
                    invariant
                        *node == (AstNode::EnumDecl { name: *name, variants: *variants }),
                        *self == *old(self),
                        !self.symbol_table@.contains_key(name@),
                        k <= i < variants.len(),
                        forall|a: int| 0 <= a < k ==> (#[trigger] variants@[a]).0@ != variants@[i as int].0@,
                    decreases i - k,
                {
                    if variants[k].0.eq(&variants[i].0) {
                        assert(variants@[k as int].0@ == variants@[i as int].0@);
                        return Err(
                            SemanticError::DuplicateEnumVariant {
                                enum_name: clone_string(name),
                                variant: clone_string(&variants[i].0),
                            },
                        );
                    }
                    k += 1;
                }
                i += 1;
            }
            let mut copied: Vec<(String, Option<TypeNode>)> = Vec::new();
            let mut j: usize = 0;
            while j < variants.len()
                invariant
                    j <= variants.len(),
                    copied.len() == j,
                    forall|a: int| 0 <= a < j ==> (#[trigger] copied@[a]).0@ == variants@[a].0@ && opt_model(copied@[a].1) == opt_model(variants@[a].1),
                decreases variants.len() - j,
            {
                let payload = match &variants[j].1 {
                    Some(t) => Some(t.duplicate()),
                    None => None,
                };
                copied.push((clone_string(&variants[j].0), payload));
                j += 1;
            }
            proof {
                lemma_variant_models(copied@);
                lemma_variant_models(variants@);
                assert(variant_models(copied@) =~= variant_models(variants@));
            }
            self.symbol_table.insert(
                clone_string(name),
                SymbolInfo {
                    ty: TypeNode::Enum(clone_string(name), copied),
                    mutable: false,
                    is_ref_counted: true,
                    is_parameter: false,
                },
            );
        }
        Ok(())
    }
}

} // verus!

verus! {

/// `let_bind` of a sequence whose first `i` steps have been taken.
proof fn lemma_let_bind_step(
    t: Map<Seq<char>, SymbolModel>,
    targets: Seq<PatternModel>,
    types: Seq<TypeModel>,
    mutable: bool,
    top: bool,
    i: int,
)
    requires
        0 <= i < targets.len(),
        i < types.len(),
    ensures
        ({
            let ts = targets.subrange(i, targets.len() as int);
            let ys = types.subrange(i, types.len() as int);
            let ts2 = targets.subrange(i + 1, targets.len() as int);
            let ys2 = types.subrange(i + 1, types.len() as int);
            let_bind(t, ts, ys, mutable, top) == match targets[i] {
                PatternModel::Identifier(n) => if n.len() > 0 && n[0] == '_' {
                    None
                } else if top && t.contains_key(n) && !t[n].is_parameter {
                    None
                } else {
                    let_bind(t.insert(n, symbol_of(types[i], mutable)), ts2, ys2, mutable, top)
                },
                _ => let_bind(t, ts2, ys2, mutable, top),
            }
        }),
{
    let ts = targets.subrange(i, targets.len() as int);
    let ys = types.subrange(i, types.len() as int);
    assert(ts.drop_first() =~= targets.subrange(i + 1, targets.len() as int));
    assert(ys.drop_first() =~= types.subrange(i + 1, types.len() as int));
}

impl SemanticAnalyzer {
    /// Whether the analyzer is at the top of a function body (no enclosing
    /// block), where a `let` may not redeclare a variable.
    pub open spec fn at_top(&self) -> bool {
        self.scope_stack@.len() == 0
    }

    /// The table after binding a `let`'s targets to the values of a type
    /// (a tuple type gives one value per element), or `None` when rejected.
    pub open spec fn let_targets_outcome(&self, mutable: bool, pattern: PatternModel, t: TypeModel) -> Option<
        Map<Seq<char>, SymbolModel>,
    > {
        match targets_of(pattern) {
            Some(ts) => if spread(t).len() == ts.len() {
                let_bind(self.symbol_table@, ts, spread(t), mutable, self.at_top())
            } else {
                None
            },
            None => None,
        }
    }

    /// The outcome of a `let` in the current scope: the new symbol table, or
    /// `None` when it is rejected.
    pub open spec fn let_outcome(
        &self,
        mutable: bool,
        annotation: Option<TypeModel>,
        pattern: PatternModel,
        value: AstNode,
    ) -> Option<Map<Seq<char>, SymbolModel>> {
        match self.let_type(annotation, value) {
            Some(t) => self.let_targets_outcome(mutable, pattern, t),
            None => None,
        }
    }

    /// The type a `let` gives its value (see `let_type`).
    fn let_value_type(&self, type_annotation: &Option<TypeNode>, value: &AstNode) -> (r: Result<TypeNode, SemanticError>)
        ensures
            r is Ok <==> self.let_type(opt_model(*type_annotation), *value) is Some,
            r matches Ok(t) ==> self.let_type(opt_model(*type_annotation), *value) == Some(t.model()),
    {
        let empty_fits = match (type_annotation, value) {
            (Some(TypeNode::Array(_)), AstNode::ArrayLiteral(els)) => els.len() == 0,
            (Some(TypeNode::MapOf(_, _)), AstNode::MapLiteral(ps)) => ps.len() == 0,
            _ => false,
        };
        if empty_fits {
            return match type_annotation {
                Some(t) => Ok(t.duplicate()),
                None => Ok(TypeNode::Void),
            };
        }
        let rhs_types_vec = self.infer_rhs_types(value, 1)?;
        proof {
            lemma_models(rhs_types_vec@);
        }
        if rhs_types_vec.len() == 0 {
            let expected = match type_annotation {
                Some(t) => t.duplicate(),
                None => TypeNode::Int,
            };
            return Err(
                SemanticError::VarTypeMismatch(
                    TypeMismatch { expected, found: TypeNode::Void, value: None, line: None, col: None },
                ),
            );
        }
        let first = rhs_types_vec[0].duplicate();
        if let Some(annotated) = type_annotation {
            if !type_eq(&first, annotated) {
                return Err(
                    SemanticError::VarTypeMismatch(
                        TypeMismatch { expected: annotated.duplicate(), found: first, value: None, line: None, col: None },
                    ),
                );
            }
        }
        Ok(first)
    }

    /// Binds a `let`'s targets to the values of `rhs_type` (see
    /// `let_targets_outcome`).
    fn bind_let_targets(&mut self, mutable: bool, pattern: &Pattern, rhs_type: &TypeNode) -> (r: Result<(), SemanticError>)
        ensures
            final(self).same_but_symbols(old(self)),
            r is Ok <==> old(self).let_targets_outcome(mutable, pattern.model(), rhs_type.model()) is Some,
            r is Ok ==> final(self).symbol_table@ == old(self).let_targets_outcome(
                mutable,
                pattern.model(),
                rhs_type.model(),
            ).unwrap(),
    {
        let targets = self.collect_and_validate_targets(pattern)?;
        proof {
            lemma_pattern_models(targets@);
        }
        let rhs_types: Vec<TypeNode> = match rhs_type {
            TypeNode::Tuple(types) => crate::analyzer::analyzer::duplicate_types(types),
            t => {
                let mut v: Vec<TypeNode> = Vec::new();
                v.push(t.duplicate());
                proof {
                    lemma_models(v@);
                    assert(models(v@) =~= seq![t.model()]);
                }
                v
            },
        };
        proof {
            lemma_models(rhs_types@);
        }
        if rhs_types.len() != targets.len() {
            return Err(SemanticError::TupleAssignmentMismatch { expected: rhs_types.len(), found: targets.len() });
        }
        let ghost ts = pattern_models(targets@);
        let ghost ys = models(rhs_types@);
        let ghost top = self.at_top();
        let ghost start = self.symbol_table@;
        assert(ts.subrange(0, ts.len() as int) =~= ts);
        assert(ys.subrange(0, ys.len() as int) =~= ys);
        assert(targets_of(pattern.model()) == Some(ts));
        assert forall|j: int| 0 <= j < ts.len() implies (#[trigger] ts[j] is Identifier || ts[j] is Wildcard) by {
            match pattern.model() {
                PatternModel::Tuple(ps) => {},
                _ => {},
            }
        }
        let mut i: usize = 0;
        while i < targets.len()
            invariant
                old(self).let_targets_outcome(mutable, pattern.model(), rhs_type.model()) == let_bind(
                    start,
                    ts,
                    ys,
                    mutable,
                    top,
                ),
                self.same_but_symbols(old(self)),
                forall|j: int| 0 <= j < ts.len() ==> (#[trigger] ts[j] is Identifier || ts[j] is Wildcard),
                top == self.at_top(),
                i <= targets.len(),
                targets.len() == rhs_types.len(),
                ts == pattern_models(targets@),
                ys == models(rhs_types@),
                ts.len() == targets.len(),
                ys.len() == rhs_types.len(),
                forall|j: int| 0 <= j < targets.len() ==> #[trigger] ts[j] == targets@[j].model(),
                forall|j: int| 0 <= j < rhs_types.len() ==> #[trigger] ys[j] == rhs_types@[j].model(),
                let_bind(start, ts, ys, mutable, top) == let_bind(
                    self.symbol_table@,
                    ts.subrange(i as int, ts.len() as int),
                    ys.subrange(i as int, ys.len() as int),
                    mutable,
                    top,
                ),
            decreases targets.len() - i,
        {
            proof {
                lemma_let_bind_step(self.symbol_table@, ts, ys, mutable, top, i as int);
            }
            match &targets[i] {
                Pattern::Identifier(name) => {
                    let cs = crate::lexar::chars::str_chars(name.as_str());
                    assert(ts[i as int] == PatternModel::Identifier(name@));
                    if cs.len() > 0 && cs[0] == '_' {
                        let mut msg = String::from_str("Variable names starting with underscore are not allowed: '");
                        msg.append(name.as_str());
                        msg.append("'");
                        return Err(SemanticError::InvalidAssignmentTarget { target: msg });
                    }
                    if self.scope_stack.len() == 0 {
                        if let Some(existing) = self.symbol_table.get(name) {
                            if !existing.is_parameter {
                                return Err(SemanticError::VariableRedeclaration(NamedError { name: clone_string(name) }));
                            }
                        }
                    }
                    let ty = rhs_types[i].duplicate();
                    let rc2 = Self::should_be_rc(&ty);
                    self.symbol_table.insert(
                        clone_string(name),
                        SymbolInfo { ty, mutable, is_ref_counted: rc2, is_parameter: false },
                    );
                },
                Pattern::Wildcard => {},
                Pattern::Tuple(_) => {
                    assert(ts[i as int] is Tuple);
                    return Err(SemanticError::InvalidAssignmentTarget { target: String::from_str("nested tuple pattern") });
                },
            }
            i += 1;
        }
        proof {
            assert(ts.subrange(i as int, ts.len() as int).len() == 0);
        }
        Ok(())
    }

    /// Analyzes a `let`: types the value (an empty collection literal takes
    /// its declared type), checks it against the annotation, records the
    /// type and whether it is reference counted in the node, and binds the
    /// targets (see `let_outcome`). Other nodes are left alone.
    pub fn analyze_let_decl(&mut self, node: &mut AstNode) -> (r: Result<(), SemanticError>)
        ensures
            final(self).same_but_symbols(old(self)),
            !(*old(node) is LetDecl) ==> r is Ok && *final(node) == *old(node) && *final(self) == *old(self),
            *old(node) matches AstNode::LetDecl { mutable, type_annotation, pattern, value, .. } ==> {
                let outcome = old(self).let_outcome(mutable, opt_model(type_annotation), pattern.model(), *value);
                &&& (r is Ok <==> outcome is Some)
                &&& r is Ok ==> final(self).symbol_table@ == outcome.unwrap()
                &&& *final(node) is LetDecl
                &&& (*final(node))->LetDecl_mutable == mutable
                &&& (*final(node))->LetDecl_pattern == pattern
                &&& (*final(node))->LetDecl_value == value
                &&& old(self).let_type(opt_model(type_annotation), *value) matches Some(t) ==> {
                    &&& opt_model((*final(node))->LetDecl_type_annotation) == Some(t)
                    &&& (*final(node))->LetDecl_is_ref_counted == Some(rc_type(t))
                }
            },
    {
        let rhs_type = match &*node {
            AstNode::LetDecl { type_annotation, value, .. } => self.let_value_type(type_annotation, value)?,
            _ => {
                return Ok(());
            },
        };
        let rc = Self::should_be_rc(&rhs_type);
        if let AstNode::LetDecl { type_annotation, is_ref_counted, .. } = node {
            *type_annotation = Some(rhs_type.duplicate());
            *is_ref_counted = Some(rc);
        }
        match &*node {
            AstNode::LetDecl { mutable, pattern, .. } => self.bind_let_targets(*mutable, pattern, &rhs_type),
            _ => Ok(()),
        }
    }
}

} // verus!

verus! {

/// The scope a function body is analyzed in: its parameters, each bound
/// (mutably, as a parameter) to its written type.
pub open spec fn param_scope(params: Seq<(String, Option<TypeNode>)>) -> Map<Seq<char>, SymbolModel>
    decreases params.len(),
{
    if params.len() == 0 {
        Map::empty()
    } else {
        let t = opt_model(params.last().1).unwrap();
        param_scope(params.drop_last()).insert(
            params.last().0@,
            SymbolModel { ty: t, mutable: true, is_ref_counted: rc_type(t), is_parameter: true },
        )
    }
}

/// The names `param_scope` binds are the parameters' names.
proof fn lemma_param_scope_keys(params: Seq<(String, Option<TypeNode>)>, k: Seq<char>)
    ensures
        param_scope(params).contains_key(k) <==> exists|j: int| 0 <= j < params.len() && (#[trigger] params[j]).0@ == k,
    decreases params.len(),
{
    if params.len() > 0 {
        let ps = params.drop_last();
        lemma_param_scope_keys(ps, k);
        if exists|j: int| 0 <= j < ps.len() && (#[trigger] ps[j]).0@ == k {
            let j = choose|j: int| 0 <= j < ps.len() && (#[trigger] ps[j]).0@ == k;
            assert(params[j] == ps[j]);
        }
        if exists|j: int| 0 <= j < params.len() && (#[trigger] params[j]).0@ == k {
            let j = choose|j: int| 0 <= j < params.len() && (#[trigger] params[j]).0@ == k;
            if j < params.len() - 1 {
                assert(ps[j] == params[j]);
            }
        }
    }
}

/// The type of what a function returns: the written one, `Void` when none is written.
pub open spec fn return_model(return_type: Option<TypeNode>) -> TypeModel {
    match return_type {
        Some(t) => t.model(),
        None => TypeModel::Void,
    }
}

/// Whether `return`s of the simple nodes `v` fit the expected type depends
/// on the types of the variables and functions alone.
proof fn lemma_returns_ok_tables(a: SemanticAnalyzer, b: SemanticAnalyzer, v: Seq<AstNode>, e: TypeModel)
    requires
        a.symbol_table@ == b.symbol_table@,
        a.function_table@ == b.function_table@,
        crate::analyzer::analyzer::all_simple(v),
    ensures
        a.returns_ok(v, e) == b.returns_ok(v, e),
{
    assert forall|i: int| 0 <= i < v.len() implies a.stmt_returns_ok(#[trigger] v[i], e) == b.stmt_returns_ok(v[i], e) by {
        assert(crate::analyzer::analyzer::simple_node(v[i]));
        if let AstNode::Return { values } = v[i] {
            assert forall|j: int| 0 <= j < values@.len() implies a.inferred(#[trigger] values@[j]) == b.inferred(values@[j]) by {
                crate::analyzer::expressions::lemma_inferred_tables(a, b, values@[j]);
            }
            assert(a.single_return_ok(values@, e) == b.single_return_ok(values@, e));
        }
    }
}

impl SemanticAnalyzer {
    /// A declaration of a function whose body holds simple nodes only (see
    /// `all_simple`) passes the analysis: a public function's name starts
    /// with an uppercase letter; every parameter has a type and a name of its
    /// own; without a return type, every top-level `return` is empty; with
    /// a return type other than `Void`, the body returns on every path; and,
    /// in the scope of the parameters, with the functions of `self`, the
    /// body passes the analysis and (with a return type other than `Void`)
    /// every `return` fits that type.
    pub open spec fn fn_decl_ok(
        &self,
        name: Seq<char>,
        visibility: Seq<char>,
        params: Seq<(String, Option<TypeNode>)>,
        return_type: Option<TypeNode>,
        body: Seq<AstNode>,
    ) -> bool {
        &&& !(visibility == "Public"@ && name.len() > 0 && !crate::lexar::chars::char_is_uppercase(name[0]))
        &&& forall|i: int| 0 <= i < params.len() ==> (#[trigger] params[i]).1 is Some
        &&& !has_duplicate_names(params)
        &&& return_type is None ==> forall|i: int|
            0 <= i < body.len() ==> ((#[trigger] body[i]) matches AstNode::Return { values } ==> values.len() == 0)
        &&& return_model(return_type) != TypeModel::Void ==> has_return(body)
        &&& exists|s: SemanticAnalyzer|
            s.symbol_table@ == param_scope(params) && s.function_table@ == self.function_table@ && s.loop_depth
                == self.loop_depth && #[trigger] s.all_simple_ok(body) && (return_model(return_type) != TypeModel::Void
                ==> s.returns_ok(body, return_model(return_type)))
    }

    /// Analyzes a function declaration: a public function's name must start
    /// with an uppercase letter; every parameter needs a type and a name of
    /// its own; a function without a return type returns `Void`, may only
    /// `return;` at its top level, and gets an implicit `return;` at its end;
    /// a function with a non-`Void` return type must return on every path.
    /// The body is analyzed with only the parameters in scope (the enclosing
    /// variables are out of scope), and every `return` must fit the return type.
    pub fn analyze_functional_decl(
        &mut self,
        name: &str,
        visibility: &str,
        params: &mut Vec<(String, Option<TypeNode>)>,
        return_type: &mut Option<TypeNode>,
        body: &mut Vec<AstNode>,
    ) -> (r: Result<(), SemanticError>)
        ensures
            final(self).keeps_setup(old(self)),
            r is Ok ==> final(self).restores_nesting(old(self)),
            *final(params) == *old(params),
            (visibility@ == "Public"@ && name@.len() > 0 && !crate::lexar::chars::char_is_uppercase(name@[0])) ==> (r matches Err(
                SemanticError::InvalidPublicName(_),
            )),
            r is Ok ==> forall|i: int| 0 <= i < old(params)@.len() ==> (#[trigger] old(params)@[i]).1 is Some,
            r is Ok ==> !has_duplicate_names(old(params)@),
            (r is Ok && *old(return_type) is None) ==> forall|i: int|
                0 <= i < old(body)@.len() ==> ((#[trigger] old(body)@[i]) matches AstNode::Return { values } ==> values.len()
                    == 0),
            (*old(return_type) matches Some(t) && t.model() != TypeModel::Void && r is Ok) ==> has_return(old(body)@),
            r is Ok ==> *final(return_type) is Some,
            (r is Ok && *old(return_type) is None) ==> (*final(return_type) matches Some(t) && t.model() == TypeModel::Void),
            crate::analyzer::analyzer::all_simple(old(body)@) ==> (r is Ok <==> old(self).fn_decl_ok(
                name@,
                visibility@,
                old(params)@,
                *old(return_type),
                old(body)@,
            )),
            ({
                let name_ok = !(visibility@ == "Public"@ && name@.len() > 0 && !crate::lexar::chars::char_is_uppercase(
                    name@[0],
                ));
                let typed = forall|i: int| 0 <= i < old(params)@.len() ==> (#[trigger] old(params)@[i]).1 is Some;
                let dup = has_duplicate_names(old(params)@);
                let void_ok = *old(return_type) is None ==> forall|i: int|
                    0 <= i < old(body)@.len() ==> ((#[trigger] old(body)@[i]) matches AstNode::Return { values }
                        ==> values.len() == 0);
                &&& ((name_ok && !typed && !dup) ==> (r matches Err(SemanticError::MissingParamType(_))))
                &&& ((name_ok && typed && dup) ==> (r matches Err(SemanticError::FunctionParamRedeclaration(_))))
                &&& ((name_ok && typed && !dup && !void_ok) ==> (r matches Err(
                    SemanticError::InvalidReturnInVoidFunction { .. },
                )))
                &&& ((name_ok && typed && !dup && void_ok && return_model(*old(return_type)) != TypeModel::Void
                    && !has_return(old(body)@)) ==> (r matches Err(SemanticError::MissingFunctionReturn { .. })))
            }),
            (crate::analyzer::analyzer::all_simple(old(body)@) && r is Ok) ==> {
                &&& final(self).symbol_table@ == old(self).symbol_table@
                &&& final(self).function_table@ == old(self).function_table@
                &&& final(self).loop_depth == old(self).loop_depth
            },
        decreases old(self).module_sources@.len(), nodes_size(old(body)@) + 1, 1nat,
    {
        if String::from_str(visibility).eq(&String::from_str("Public")) {
            let cs = crate::lexar::chars::str_chars(name);
            if cs.len() > 0 && !crate::lexar::chars::is_uppercase(cs[0]) {
                return Err(SemanticError::InvalidPublicName(NamedError { name: String::from_str(name) }));
            }
        }
        let ghost public_ok = !(visibility@ == "Public"@ && name@.len() > 0 && !crate::lexar::chars::char_is_uppercase(
            name@[0],
        ));
        assert(public_ok);
        let mut local_scope: crate::analyzer::table::NameMap<SymbolInfo> = crate::analyzer::table::NameMap::new();
        let mut i: usize = 0;
        while i < params.len()
            invariant
                public_ok,
                public_ok == !(visibility@ == "Public"@ && name@.len() > 0 && !crate::lexar::chars::char_is_uppercase(
                    name@[0],
                )),
                *self == *old(self),
                *params == *old(params),
                i <= params.len(),
                forall|a: int| 0 <= a < i ==> (#[trigger] params@[a]).1 is Some,
                forall|a: int| 0 <= a < i ==> local_scope@.contains_key((#[trigger] params@[a]).0@),
                forall|a: int, b: int| 0 <= a < b < i ==> (#[trigger] params@[a]).0@ != (#[trigger] params@[b]).0@,
                local_scope@ == param_scope(params@.take(i as int)),
            decreases params.len() - i,
        {
            match &params[i].1 {
                None => {
                    return Err(SemanticError::MissingParamType(NamedError { name: clone_string(&params[i].0) }));
                },
                Some(t) => {
                    if local_scope.contains_key(&params[i].0) {
                        proof {
                            lemma_param_scope_keys(params@.take(i as int), params@[i as int].0@);
                            let j = choose|j: int| 0 <= j < i && (#[trigger] params@.take(i as int)[j]).0@ == params@[i as int].0@;
                            assert(params@[j].0@ == params@[i as int].0@);
                        }
                        return Err(SemanticError::FunctionParamRedeclaration(NamedError { name: clone_string(&params[i].0) }));
                    }
                    let ty = t.duplicate();
                    let rc = Self::should_be_rc(&ty);
                    local_scope.insert(
                        clone_string(&params[i].0),
                        SymbolInfo { ty, mutable: true, is_ref_counted: rc, is_parameter: true },
                    );
                    proof {
                        let pi = params@.take(i + 1);
                        assert(pi.drop_last() =~= params@.take(i as int));
                        assert(pi.last() == params@[i as int]);
                    }
                },
            }
            i += 1;
        }
        proof {
            assert(params@.take(params.len() as int) =~= params@);
        }
        let mut append_return = false;
        if return_type.is_none() {
            *return_type = Some(TypeNode::Void);
            let mut k: usize = 0;
            while k < body.len()
                invariant
                    public_ok,
                    public_ok == !(visibility@ == "Public"@ && name@.len() > 0 && !crate::lexar::chars::char_is_uppercase(
                        name@[0],
                    )),
                    *body == *old(body),
                    *params == *old(params),
                    forall|a: int| 0 <= a < params@.len() ==> (#[trigger] params@[a]).1 is Some,
                    forall|a: int, b: int| 0 <= a < b < params@.len() ==> (#[trigger] params@[a]).0@ != (#[trigger] params@[b]).0@,
                    *old(return_type) is None,
                    *return_type == Some(TypeNode::Void),
                    k <= body.len(),
                    forall|a: int| 0 <= a < k ==> ((#[trigger] body@[a]) matches AstNode::Return { values } ==> values.len() == 0),
                decreases body.len() - k,
            {
                if let AstNode::Return { values } = &body[k] {
                    if values.len() > 0 {
                        assert(old(body)@[k as int] matches AstNode::Return { values: vs } && vs.len() > 0);
                        return Err(SemanticError::InvalidReturnInVoidFunction { function: String::from_str(name) });
                    }
                }
                k += 1;
            }
            if body.len() > 0 {
                let last = body.len() - 1;
                if !matches!(body[last], AstNode::Return { .. }) {
                    append_return = true;
                }
            }
        }
        let ret = match &*return_type {
            Some(t) => t.duplicate(),
            None => TypeNode::Void,
        };
        let outer = self.symbol_table.duplicate();
        self.outer_symbol_table = Some(outer);
        self.symbol_table = local_scope;
        let non_void = !matches!(ret, TypeNode::Void);
        assert(append_return ==> ret.model() == TypeModel::Void);
        assert(append_return ==> !non_void);
        if non_void {
            self.ensure_has_return(body, name)?;
        }
        let ghost s1 = *self;
        let analyzed = self.analyze_program(body);
        if append_return {
            body.push(AstNode::Return { values: Vec::new() });
        }
        proof {
            if crate::analyzer::analyzer::all_simple(old(body)@) && analyzed is Err {
                assert(s1.main_rule_ok());
                assert forall|t: SemanticAnalyzer|
                    t.symbol_table@ == param_scope(old(params)@) && t.function_table@ == old(self).function_table@
                        && t.loop_depth == old(self).loop_depth implies !#[trigger] t.all_simple_ok(old(body)@) by {
                    crate::analyzer::analyzer::lemma_simple_ok_tables(t, s1, old(body)@);
                }
            }
        }
        analyzed?;
        if non_void {
            let ghost s2 = *self;
            let checked = self.verify_return_types(body, &ret, name);
            proof {
                if crate::analyzer::analyzer::all_simple(old(body)@) && checked is Err {
                    assert(body@ == old(body)@);
                    assert(s2 == s1);
                    assert(ret.model() == return_model(*old(return_type)));
                    assert forall|t: SemanticAnalyzer|
                        t.symbol_table@ == param_scope(old(params)@) && t.function_table@ == old(self).function_table@
                            && t.loop_depth == old(self).loop_depth implies !(#[trigger] t.all_simple_ok(old(body)@) && (
                        return_model(*old(return_type)) != TypeModel::Void ==> t.returns_ok(
                            old(body)@,
                            return_model(*old(return_type)),
                        ))) by {
                        lemma_returns_ok_tables(t, s1, old(body)@, return_model(*old(return_type)));
                    }
                }
            }
            checked?;
        }
        match self.outer_symbol_table.take() {
            Some(outer) => {
                self.symbol_table = outer;
            },
            None => {},
        }
        Ok(())
    }
}

} // verus!
