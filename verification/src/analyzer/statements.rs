use crate::analyzer::analyzer::{
    all_simple, else_size, lemma_simple_ok_tables, node_size, simple_node, nodes_size, plain_expression, printable, SemanticAnalyzer, SymbolInfo, SymbolModel,
};
use crate::analyzer::types::{NamedError, SemanticError, TypeMismatch};
use crate::lexar::chars::{is_digit, str_chars};
use crate::lexar::token::TokenType;
use crate::parser::ast::{
    clone_string, lemma_models, type_eq, lemma_pattern_models, models, pattern_models, AstNode, Pattern,
    PatternModel, TypeModel, TypeNode,
};
use vstd::prelude::*;
use vstd::string::StringExecFns;

verus! {

broadcast use vstd::std_specs::vec::group_vec_axioms;

/// The words that cannot name a variable.
pub open spec fn is_reserved_name(s: Seq<char>) -> bool {
    ||| s == "let"@
    ||| s == "fn"@
    ||| s == "import"@
    ||| s == "struct"@
    ||| s == "enum"@
    ||| s == "map"@
    ||| s == "if"@
    ||| s == "else"@
    ||| s == "for"@
    ||| s == "in"@
    ||| s == "return"@
    ||| s == "break"@
    ||| s == "continue"@
    ||| s == "print"@
    ||| s == "true"@
    ||| s == "false"@
}

/// A name a variable may have: not empty, not reserved, not starting with a digit.
pub open spec fn valid_identifier(s: Seq<char>) -> bool {
    s.len() > 0 && !is_reserved_name(s) && !('0' <= s[0] && s[0] <= '9')
}

/// The assignment targets a pattern stands for: a valid name or `_` alone, or
/// the valid names and wildcards of a flat tuple; `None` when the pattern is
/// invalid.
pub open spec fn targets_of(p: PatternModel) -> Option<Seq<PatternModel>> {
    match p {
        PatternModel::Identifier(n) => if valid_identifier(n) {
            Some(seq![p])
        } else {
            None
        },
        PatternModel::Wildcard => Some(seq![p]),
        PatternModel::Tuple(ps) => if forall|i: int|
            0 <= i < ps.len() ==> (#[trigger] ps[i] is Wildcard || (ps[i] matches PatternModel::Identifier(n)
                && valid_identifier(n))) {
            Some(ps)
        } else {
            None
        },
    }
}

/// Whether a value of this type is reference counted: arrays, maps and strings.
pub open spec fn rc_type(t: TypeModel) -> bool {
    t is Array || t is MapOf || t is Str
}

/// The symbol a binding of type `t` makes.
pub open spec fn symbol_of(t: TypeModel, mutable: bool) -> SymbolModel {
    SymbolModel { ty: t, mutable, is_ref_counted: rc_type(t), is_parameter: false }
}

/// The table after binding each target name to the type at the same
/// position (wildcards bind nothing).
pub open spec fn bind_all(
    t: Map<Seq<char>, SymbolModel>,
    targets: Seq<PatternModel>,
    types: Seq<TypeModel>,
    mutable: bool,
) -> Map<Seq<char>, SymbolModel>
    decreases targets.len(),
{
    if targets.len() == 0 || types.len() == 0 {
        t
    } else {
        let t2 = match targets[0] {
            PatternModel::Identifier(n) => if n != "_"@ {
                t.insert(n, symbol_of(types[0], mutable))
            } else {
                t
            },
            _ => t,
        };
        bind_all(t2, targets.drop_first(), types.drop_first(), mutable)
    }
}

/// The values a type spreads into on the right of an assignment: the
/// elements of a tuple, or the value itself.
pub open spec fn spread(t: TypeModel) -> Seq<TypeModel> {
    match t {
        TypeModel::Tuple(ts) => ts,
        _ => seq![t],
    }
}

/// The type a compound assignment `v op= r` gives, when it is allowed.
pub open spec fn compound_result(op: TokenType, v: TypeModel, r: TypeModel) -> Option<TypeModel> {
    if op == TokenType::PlusEq || op == TokenType::MinusEq || op == TokenType::StarEq || op == TokenType::SlashEq {
        if v == TypeModel::Int && r == TypeModel::Int {
            Some(TypeModel::Int)
        } else if v == TypeModel::Float && r == TypeModel::Float {
            Some(TypeModel::Float)
        } else if v == TypeModel::Str && r == TypeModel::Str && op == TokenType::PlusEq {
            Some(TypeModel::Str)
        } else {
            None
        }
    } else {
        None
    }
}

/// The table after binding a loop pattern to a type, or `None` when the
/// pattern does not fit the type or rebinds a name in scope.
pub open spec fn bind_pattern(t: Map<Seq<char>, SymbolModel>, p: PatternModel, ty: TypeModel) -> Option<
    Map<Seq<char>, SymbolModel>,
>
    decreases p,
{
    match p {
        PatternModel::Identifier(n) => if t.contains_key(n) {
            None
        } else {
            Some(t.insert(n, symbol_of(ty, false)))
        },
        PatternModel::Wildcard => Some(t),
        PatternModel::Tuple(ps) => match ty {
            TypeModel::Tuple(tys) => if tys.len() == ps.len() {
                bind_patterns(t, ps, tys)
            } else {
                None
            },
            _ => None,
        },
    }
}

/// `bind_pattern` of each pattern to the type at the same position, in order.
pub open spec fn bind_patterns(t: Map<Seq<char>, SymbolModel>, ps: Seq<PatternModel>, tys: Seq<TypeModel>) -> Option<
    Map<Seq<char>, SymbolModel>,
>
    decreases ps,
{
    if ps.len() == 0 || tys.len() == 0 {
        Some(t)
    } else {
        proof {
            assert(decreases_to!(ps => ps[0]));
            assert(decreases_to!(ps => ps.subrange(1, ps.len() as int)));
        }
        match bind_pattern(t, ps[0], tys[0]) {
            Some(t2) => {
                bind_patterns(t2, ps.subrange(1, ps.len() as int), tys.subrange(1, tys.len() as int))
            },
            None => None,
        }
    }
}

/// No `else`, or a simple one (see `simple_node`).
pub open spec fn else_simple(e: Option<Box<AstNode>>) -> bool {
    match e {
        Some(b) => simple_node(*b),
        None => true,
    }
}

impl SemanticAnalyzer {
    /// The types of the arguments match the parameter types one for one.
    pub open spec fn args_match(&self, args: Seq<AstNode>, params: Seq<TypeModel>) -> bool {
        args.len() == params.len() && forall|i: int|
            0 <= i < args.len() ==> self.inferred(#[trigger] args[i]) == Some(params[i])
    }

    /// The values a call gives (its return type spread), when the callee is a
    /// declared function and the arguments fit its parameters.
    pub open spec fn call_result(&self, func: AstNode, args: Seq<AstNode>) -> Option<Seq<TypeModel>> {
        match func {
            AstNode::Identifier(n) => if self.function_table@.contains_key(n@) && self.args_match(
                args,
                self.function_table@[n@].0,
            ) {
                Some(spread(self.function_table@[n@].1))
            } else {
                None
            },
            _ => None,
        }
    }

    /// The types of the values on the right of an assignment to `lhs_count`
    /// targets: a call gives its return values, a tuple literal its elements,
    /// anything else its own type (and only to a single target).
    pub open spec fn rhs_types(&self, value: AstNode, lhs_count: int) -> Option<Seq<TypeModel>> {
        match value {
            AstNode::FunctionCall { func, args } => self.call_result(*func, args@),
            AstNode::TupleLiteral(els) => if forall|i: int| 0 <= i < els.len() ==> self.inferred(#[trigger] els@[i]) is Some {
                Some(Seq::new(els.len() as nat, |i: int| self.inferred(els@[i]).unwrap()))
            } else {
                None
            },
            _ => if lhs_count > 1 {
                None
            } else {
                match self.inferred(value) {
                    Some(t) => Some(seq![t]),
                    None => None,
                }
            },
        }
    }

    /// An assignment `pattern = value` is allowed: the targets are valid, the
    /// right side gives one value per target, and every named target is a
    /// mutable variable in scope of the type of its value.
    pub open spec fn assignment_ok(&self, pattern: PatternModel, value: AstNode) -> bool {
        match targets_of(pattern) {
            Some(ts) => match self.rhs_types(value, ts.len() as int) {
                Some(rs) => rs.len() == ts.len() && forall|i: int|
                    0 <= i < ts.len() ==> (#[trigger] ts[i] matches PatternModel::Identifier(n) ==> (
                    self.symbol_table@.contains_key(n) && self.symbol_table@[n].mutable && self.symbol_table@[n].ty
                        == rs[i])),
                None => false,
            },
            None => false,
        }
    }

    /// A compound assignment `name op= value` is allowed.
    pub open spec fn compound_ok(&self, pattern: PatternModel, op: TokenType, value: AstNode) -> bool {
        match pattern {
            PatternModel::Identifier(n) => self.symbol_table@.contains_key(n) && self.symbol_table@[n].mutable
                && match self.inferred(value) {
                Some(t) => compound_result(op, self.symbol_table@[n].ty, t) is Some,
                None => false,
            },
            _ => false,
        }
    }

    /// Whether `name` may name a variable (see `valid_identifier`).
    pub fn is_valid_identifier(name: &String) -> (r: bool)
        ensures
            r == valid_identifier(name@),
    {
        let cs = str_chars(name.as_str());
        if cs.len() == 0 {
            return false;
        }
        let reserved = name.eq(&String::from_str("let")) || name.eq(&String::from_str("fn")) || name.eq(
            &String::from_str("import"),
        ) || name.eq(&String::from_str("struct")) || name.eq(&String::from_str("enum")) || name.eq(
            &String::from_str("map"),
        ) || name.eq(&String::from_str("if")) || name.eq(&String::from_str("else")) || name.eq(
            &String::from_str("for"),
        ) || name.eq(&String::from_str("in")) || name.eq(&String::from_str("return")) || name.eq(
            &String::from_str("break"),
        ) || name.eq(&String::from_str("continue")) || name.eq(&String::from_str("print")) || name.eq(
            &String::from_str("true"),
        ) || name.eq(&String::from_str("false"));
        !reserved && !is_digit(cs[0])
    }

    /// Flattens an assignment pattern into its targets (see `targets_of`).
    pub fn collect_and_validate_targets(&self, pattern: &Pattern) -> (r: Result<Vec<Pattern>, SemanticError>)
        ensures
            r is Ok <==> targets_of(pattern.model()) is Some,
            r matches Ok(v) ==> targets_of(pattern.model()) == Some(pattern_models(v@)),
            r matches Err(e) ==> e is InvalidAssignmentTarget,
    {
        let mut targets: Vec<Pattern> = Vec::new();
        match pattern {
            Pattern::Identifier(name) => {
                if !Self::is_valid_identifier(name) {
                    return Err(SemanticError::InvalidAssignmentTarget { target: clone_string(name) });
                }
                targets.push(pattern.duplicate());
            },
            Pattern::Wildcard => {
                targets.push(Pattern::Wildcard);
            },
            Pattern::Tuple(names) => {
                let mut i: usize = 0;
                while i < names.len()
                    invariant
                        *pattern == Pattern::Tuple(*names),
                        i <= names.len(),
                        targets.len() == i,
                        forall|j: int| 0 <= j < i ==> (#[trigger] targets@[j]).model() == names@[j].model(),
                        forall|j: int|
                            0 <= j < i ==> (#[trigger] names@[j]) is Wildcard || (names@[j] matches Pattern::Identifier(n)
                                && valid_identifier(n@)),
                    decreases names.len() - i,
                {
                    match &names[i] {
                        Pattern::Identifier(n) => {
                            if !Self::is_valid_identifier(n) {
                                proof {
                                    lemma_pattern_models(names@);
                                    assert(pattern_models(names@)[i as int] == PatternModel::Identifier(n@));
                                    assert(pattern.model() == PatternModel::Tuple(pattern_models(names@)));
                                }
                                return Err(SemanticError::InvalidAssignmentTarget { target: clone_string(n) });
                            }
                            targets.push(names[i].duplicate());
                        },
                        Pattern::Wildcard => {
                            targets.push(names[i].duplicate());
                        },
                        Pattern::Tuple(_) => {
                            proof {
                                lemma_pattern_models(names@);
                                assert(pattern_models(names@)[i as int] is Tuple);
                                assert(pattern.model() == PatternModel::Tuple(pattern_models(names@)));
                                assert(targets_of(pattern.model()) is None);
                            }
                            return Err(
                                SemanticError::InvalidAssignmentTarget { target: String::from_str("nested tuple pattern") },
                            );
                        },
                    }
                    i += 1;
                }
                proof {
                    lemma_pattern_models(names@);
                    lemma_pattern_models(targets@);
                    assert(pattern_models(targets@) =~= pattern_models(names@));
                    assert forall|j: int| 0 <= j < names.len() implies (#[trigger] pattern_models(names@)[j] is Wildcard
                        || (pattern_models(names@)[j] matches PatternModel::Identifier(n) && valid_identifier(n))) by {
                        assert(names@[j] is Wildcard || (names@[j] matches Pattern::Identifier(n) && valid_identifier(n@)));
                    }
                }
            },
        }
        proof {
            lemma_pattern_models(targets@);
            assert(pattern_models(targets@) =~= targets_of(pattern.model()).unwrap());
        }
        Ok(targets)
    }

    /// Validates a call to the function named by `func` and gives the values
    /// it returns (see `call_result`).
    pub(crate) fn check_function_call(&self, func: &AstNode, args: &Vec<AstNode>) -> (r: Result<Vec<TypeNode>, SemanticError>)
        ensures
            r is Ok <==> self.call_result(*func, args@) is Some,
            r matches Ok(v) ==> self.call_result(*func, args@) == Some(models(v@)),
    {
        let name = match func {
            AstNode::Identifier(n) => n,
            _ => {
                return Err(SemanticError::InvalidFunctionCall { func: String::from_str("<expression>") });
            },
        };
        match self.function_table.get(name) {
            Some(sig) => {
                proof {
                    lemma_models(sig.params@);
                }
                if args.len() != sig.params.len() {
                    return Err(
                        SemanticError::FunctionArgumentMismatch {
                            name: clone_string(name),
                            expected: sig.params.len(),
                            found: args.len(),
                        },
                    );
                }
                let mut i: usize = 0;
                while i < args.len()
                    invariant
                        *func == AstNode::Identifier(*name),
                        self.function_table@.contains_key(name@),
                        self.function_table@[name@].0 == models(sig.params@),
                        i <= args.len(),
                        args.len() == sig.params.len(),
                        models(sig.params@).len() == sig.params.len(),
                        forall|j: int| 0 <= j < sig.params.len() ==> #[trigger] models(sig.params@)[j] == sig.params@[j].model(),
                        forall|j: int| 0 <= j < i ==> self.inferred(#[trigger] args@[j]) == Some(sig.params@[j].model()),
                    decreases args.len() - i,
                {
                    let arg_ty = match self.infer_type(&args[i]) {
                        Ok(t) => t,
                        Err(e) => {
                            assert(self.inferred(args@[i as int]) != Some(models(sig.params@)[i as int]));
                            return Err(e);
                        },
                    };
                    if !crate::parser::ast::type_eq(&arg_ty, &sig.params[i]) {
                        assert(self.inferred(args@[i as int]) != Some(models(sig.params@)[i as int]));
                        assert(self.function_table@[name@].0 == models(sig.params@));
                        assert(!self.args_match(args@, self.function_table@[name@].0));
                        return Err(
                            SemanticError::FunctionArgumentTypeMismatch {
                                name: clone_string(name),
                                expected: sig.params[i].duplicate(),
                                found: arg_ty,
                            },
                        );
                    }
                    i += 1;
                }
                let out = match &sig.ret {
                    TypeNode::Tuple(types) => crate::analyzer::analyzer::duplicate_types(types),
                    t => {
                        let mut v: Vec<TypeNode> = Vec::new();
                        v.push(t.duplicate());
                        proof {
                            lemma_models(v@);
                            assert(models(v@) =~= seq![t.model()]);
                        }
                        v
                    },
                };
                Ok(out)
            },
            None => Err(SemanticError::UndeclaredFunction(NamedError { name: clone_string(name) })),
        }
    }

    /// The types of the values on the right of an assignment to `lhs_count`
    /// targets (see `rhs_types`).
    pub fn infer_rhs_types(&self, value: &AstNode, lhs_count: usize) -> (r: Result<Vec<TypeNode>, SemanticError>)
        ensures
            r is Ok <==> self.rhs_types(*value, lhs_count as int) is Some,
            r matches Ok(v) ==> self.rhs_types(*value, lhs_count as int) == Some(models(v@)),
    {
        match value {
            AstNode::FunctionCall { func, args } => self.check_function_call(func, args),
            AstNode::TupleLiteral(elements) => {
                let mut out: Vec<TypeNode> = Vec::new();
                let mut i: usize = 0;
                while i < elements.len()
                    invariant
                        *value == AstNode::TupleLiteral(*elements),
                        i <= elements.len(),
                        out.len() == i,
                        forall|j: int| 0 <= j < i ==> self.inferred(#[trigger] elements@[j]) == Some(out@[j].model()),
                    decreases elements.len() - i,
                {
                    let t = match self.infer_type(&elements[i]) {
                        Ok(t) => t,
                        Err(e) => {
                            assert(self.inferred(elements@[i as int]) is None);
                            assert(!(forall|j: int| 0 <= j < elements.len() ==> self.inferred(#[trigger] elements@[j]) is Some));
                            return Err(e);
                        },
                    };
                    out.push(t);
                    i += 1;
                }
                proof {
                    lemma_models(out@);
                    assert(models(out@) =~= self.rhs_types(*value, lhs_count as int).unwrap());
                }
                Ok(out)
            },
            _ => {
                if lhs_count > 1 {
                    return Err(SemanticError::InvalidFunctionCall { func: String::from_str("<expression>") });
                }
                let t = self.infer_type(value)?;
                let mut v: Vec<TypeNode> = Vec::new();
                v.push(t);
                proof {
                    lemma_models(v@);
                    assert(models(v@) =~= seq![v@[0].model()]);
                }
                Ok(v)
            },
        }
    }
}

} // verus!

verus! {

/// `bind_all` of a sequence whose first `i` steps have been taken.
proof fn lemma_bind_all_step(
    t: Map<Seq<char>, SymbolModel>,
    targets: Seq<PatternModel>,
    types: Seq<TypeModel>,
    mutable: bool,
    i: int,
)
    requires
        0 <= i < targets.len(),
        i < types.len(),
    ensures
        bind_all(t, targets.subrange(i, targets.len() as int), types.subrange(i, types.len() as int), mutable)
            == bind_all(
            match targets[i] {
                PatternModel::Identifier(n) => if n != "_"@ {
                    t.insert(n, symbol_of(types[i], mutable))
                } else {
                    t
                },
                _ => t,
            },
            targets.subrange(i + 1, targets.len() as int),
            types.subrange(i + 1, types.len() as int),
            mutable,
        ),
{
    let ts = targets.subrange(i, targets.len() as int);
    let ys = types.subrange(i, types.len() as int);
    assert(ts.drop_first() =~= targets.subrange(i + 1, targets.len() as int));
    assert(ys.drop_first() =~= types.subrange(i + 1, types.len() as int));
}

impl SemanticAnalyzer {
    /// Binds each target name to the type at the same position as a mutable
    /// variable (wildcards and `_` bind nothing).
    fn bind_targets(&mut self, targets: &Vec<Pattern>, rhs_types: &Vec<TypeNode>)
        ensures
            final(self).same_but_symbols(old(self)),
            final(self).symbol_table@ == bind_all(
                old(self).symbol_table@,
                pattern_models(targets@),
                models(rhs_types@),
                true,
            ),
    {
        let ghost ts = pattern_models(targets@);
        let ghost ys = models(rhs_types@);
        proof {
            lemma_pattern_models(targets@);
            lemma_models(rhs_types@);
        }
        let mut i: usize = 0;
        assert(ts.subrange(0, ts.len() as int) =~= ts);
        assert(ys.subrange(0, ys.len() as int) =~= ys);
        while i < targets.len() && i < rhs_types.len()
            invariant
                self.same_but_symbols(old(self)),
                i <= targets.len(),
                i <= rhs_types.len(),
                ts == pattern_models(targets@),
                ys == models(rhs_types@),
                ts.len() == targets.len(),
                ys.len() == rhs_types.len(),
                forall|j: int| 0 <= j < targets.len() ==> #[trigger] ts[j] == targets@[j].model(),
                forall|j: int| 0 <= j < rhs_types.len() ==> #[trigger] ys[j] == rhs_types@[j].model(),
                bind_all(old(self).symbol_table@, ts, ys, true) == bind_all(
                    self.symbol_table@,
                    ts.subrange(i as int, ts.len() as int),
                    ys.subrange(i as int, ys.len() as int),
                    true,
                ),
            decreases targets.len() - i,
        {
            proof {
                lemma_bind_all_step(self.symbol_table@, ts, ys, true, i as int);
            }
            if let Pattern::Identifier(name) = &targets[i] {
                if !name.eq(&String::from_str("_")) {
                    let ty = rhs_types[i].duplicate();
                    let rc = Self::should_be_rc(&ty);
                    self.symbol_table.insert(
                        clone_string(name),
                        SymbolInfo { ty, mutable: true, is_ref_counted: rc, is_parameter: false },
                    );
                }
            }
            i += 1;
        }
        proof {
            let rest_t = ts.subrange(i as int, ts.len() as int);
            let rest_y = ys.subrange(i as int, ys.len() as int);
            assert(rest_t.len() == 0 || rest_y.len() == 0);
            assert(bind_all(self.symbol_table@, rest_t, rest_y, true) == self.symbol_table@);
        }
    }

    /// Checks an assignment `pattern = value` (see `assignment_ok`) and binds
    /// its targets as mutable variables of the right side's types.
    pub fn analyze_assignment(&mut self, pattern: &Pattern, value: &AstNode) -> (r: Result<(), SemanticError>)
        ensures
            r is Ok <==> old(self).assignment_ok(pattern.model(), *value),
            r is Ok ==> final(self).same_but_symbols(old(self)) && final(self).symbol_table@ == bind_all(
                old(self).symbol_table@,
                targets_of(pattern.model()).unwrap(),
                old(self).rhs_types(*value, targets_of(pattern.model()).unwrap().len() as int).unwrap(),
                true,
            ),
            r is Err ==> *final(self) == *old(self),
            targets_of(pattern.model()) is None ==> r matches Err(SemanticError::InvalidAssignmentTarget { .. }),
            (targets_of(pattern.model()) matches Some(ts) && ts.len() == 1 && (ts[0] matches PatternModel::Identifier(n)
                && (old(self).rhs_types(*value, 1) matches Some(rs) && rs.len() == 1))) ==> {
                let n = targets_of(pattern.model()).unwrap()[0]->Identifier_0;
                let rt = old(self).rhs_types(*value, 1).unwrap()[0];
                let table = old(self).symbol_table@;
                &&& !table.contains_key(n) ==> (r matches Err(SemanticError::UndeclaredVariable(_)))
                &&& (table.contains_key(n) && !table[n].mutable) ==> (r matches Err(
                    SemanticError::InvalidAssignmentTarget { .. },
                ))
                &&& (table.contains_key(n) && table[n].mutable && table[n].ty != rt) ==> (r matches Err(
                    SemanticError::VarTypeMismatch(_),
                ))
            },
    {
        let targets = self.collect_and_validate_targets(pattern)?;
        let lhs_count = targets.len();
        proof {
            lemma_pattern_models(targets@);
        }
        let rhs_types = self.infer_rhs_types(value, lhs_count)?;
        if rhs_types.len() != lhs_count {
            proof {
                lemma_models(rhs_types@);
            }
            return Err(SemanticError::TupleAssignmentMismatch { expected: rhs_types.len(), found: lhs_count });
        }
        let ghost ts = pattern_models(targets@);
        proof {
            lemma_models(rhs_types@);
        }
        let mut i: usize = 0;
        while i < targets.len()
            invariant
                *self == *old(self),
                i <= targets.len(),
                targets_of(pattern.model()) == Some(ts),
                old(self).rhs_types(*value, ts.len() as int) == Some(models(rhs_types@)),
                models(rhs_types@).len() == ts.len(),
                ts == pattern_models(targets@),
                ts.len() == targets.len(),
                forall|j: int| 0 <= j < targets.len() ==> #[trigger] ts[j] == targets@[j].model(),
                forall|j: int|
                    0 <= j < i ==> (#[trigger] ts[j] matches PatternModel::Identifier(n) ==> (
                    self.symbol_table@.contains_key(n) && self.symbol_table@[n].mutable && self.symbol_table@[n].ty
                        == models(rhs_types@)[j])),
                rhs_types.len() == targets.len(),
                forall|j: int| 0 <= j < rhs_types.len() ==> #[trigger] models(rhs_types@)[j] == rhs_types@[j].model(),
            decreases targets.len() - i,
        {
            if let Pattern::Identifier(name) = &targets[i] {
                match self.symbol_table.get(name) {
                    Some(info) => {
                        if !info.mutable {
                            assert(ts[i as int] == targets@[i as int].model());
                            let mut msg = String::from_str("Cannot assign to immutable variable '");
                            msg.append(name.as_str());
                            msg.append("'");
                            return Err(SemanticError::InvalidAssignmentTarget { target: msg });
                        }
                        if !type_eq(&info.ty, &rhs_types[i]) {
                            assert(ts[i as int] == targets@[i as int].model());
                            return Err(
                                SemanticError::VarTypeMismatch(
                                    TypeMismatch {
                                        expected: info.ty.duplicate(),
                                        found: rhs_types[i].duplicate(),
                                        value: None,
                                        line: None,
                                        col: None,
                                    },
                                ),
                            );
                        }
                    },
                    None => {
                        assert(ts[i as int] == targets@[i as int].model());
                        return Err(SemanticError::UndeclaredVariable(NamedError { name: clone_string(name) }));
                    },
                }
            }
            i += 1;
        }
        proof {
            lemma_models(rhs_types@);
        }
        self.bind_targets(&targets, &rhs_types);
        Ok(())
    }

    /// Checks a compound assignment `name op= value` (see `compound_ok`).
    pub fn analyze_compound_assignment(&mut self, pattern: &Pattern, op: TokenType, value: &AstNode) -> (r: Result<
        (),
        SemanticError,
    >)
        ensures
            *final(self) == *old(self),
            r is Ok <==> old(self).compound_ok(pattern.model(), op, *value),
    {
        let var_name = match pattern {
            Pattern::Identifier(name) => name,
            _ => {
                return Err(
                    SemanticError::InvalidAssignmentTarget {
                        target: String::from_str("Compound assignment only supports single variables"),
                    },
                );
            },
        };
        let var_info = match self.symbol_table.get(var_name) {
            Some(info) => info,
            None => {
                return Err(SemanticError::UndeclaredVariable(NamedError { name: clone_string(var_name) }));
            },
        };
        if !var_info.mutable {
            let mut msg = String::from_str("Cannot assign to immutable variable '");
            msg.append(var_name.as_str());
            msg.append("'");
            return Err(SemanticError::InvalidAssignmentTarget { target: msg });
        }
        let rhs_type = self.infer_type(value)?;
        if op == TokenType::PlusEq || op == TokenType::MinusEq || op == TokenType::StarEq || op == TokenType::SlashEq {
            let ok = match (&var_info.ty, &rhs_type) {
                (TypeNode::Int, TypeNode::Int) => true,
                (TypeNode::Float, TypeNode::Float) => true,
                (TypeNode::String, TypeNode::String) => op == TokenType::PlusEq,
                _ => false,
            };
            if !ok {
                return Err(
                    SemanticError::OperatorTypeMismatch(
                        TypeMismatch {
                            expected: var_info.ty.duplicate(),
                            found: rhs_type,
                            value: None,
                            line: None,
                            col: None,
                        },
                    ),
                );
            }
            Ok(())
        } else {
            Err(SemanticError::UnexpectedNode { expected: String::from_str("a compound assignment operator") })
        }
    }
}

} // verus!

verus! {

/// `bind_patterns` of sequences whose first `i` steps have been taken.
proof fn lemma_bind_patterns_step(t: Map<Seq<char>, SymbolModel>, ps: Seq<PatternModel>, tys: Seq<TypeModel>, i: int)
    requires
        0 <= i < ps.len(),
        i < tys.len(),
    ensures
        bind_patterns(t, ps.subrange(i, ps.len() as int), tys.subrange(i, tys.len() as int)) == match bind_pattern(
            t,
            ps[i],
            tys[i],
        ) {
            Some(t2) => bind_patterns(t2, ps.subrange(i + 1, ps.len() as int), tys.subrange(i + 1, tys.len() as int)),
            None => None,
        },
{
    let a = ps.subrange(i, ps.len() as int);
    let b = tys.subrange(i, tys.len() as int);
    assert(a.subrange(1, a.len() as int) =~= ps.subrange(i + 1, ps.len() as int));
    assert(b.subrange(1, b.len() as int) =~= tys.subrange(i + 1, tys.len() as int));
}

impl SemanticAnalyzer {
    /// Binds a loop pattern to a type (see `bind_pattern`): names become
    /// immutable variables and must not be in scope already; a tuple pattern
    /// needs a tuple type of the same length.
    pub(crate) fn bind_pattern_to_type(&mut self, pattern: &Pattern, ty: &TypeNode) -> (r: Result<(), SemanticError>)
        ensures
            final(self).same_but_symbols(old(self)),
            r is Ok <==> bind_pattern(old(self).symbol_table@, pattern.model(), ty.model()) is Some,
            r is Ok ==> final(self).symbol_table@ == bind_pattern(
                old(self).symbol_table@,
                pattern.model(),
                ty.model(),
            ).unwrap(),
        decreases pattern,
    {
        match pattern {
            Pattern::Identifier(name) => {
                if self.symbol_table.contains_key(name) {
                    return Err(SemanticError::VariableRedeclaration(NamedError { name: clone_string(name) }));
                }
                let t = ty.duplicate();
                let rc = Self::should_be_rc(&t);
                self.symbol_table.insert(
                    clone_string(name),
                    SymbolInfo { ty: t, mutable: false, is_ref_counted: rc, is_parameter: false },
                );
                Ok(())
            },
            Pattern::Wildcard => Ok(()),
            Pattern::Tuple(patterns) => {
                match ty {
                    TypeNode::Tuple(types) => {
                        if types.len() != patterns.len() {
                            proof {
                                lemma_models(types@);
                                lemma_pattern_models(patterns@);
                            }
                            return Err(SemanticError::InvalidAssignmentTarget { target: String::from_str("tuple pattern") });
                        }
                        let ghost ps = pattern_models(patterns@);
                        let ghost ys = models(types@);
                        let ghost start = self.symbol_table@;
                        proof {
                            lemma_models(types@);
                            lemma_pattern_models(patterns@);
                            assert(ps.subrange(0, ps.len() as int) =~= ps);
                            assert(ys.subrange(0, ys.len() as int) =~= ys);
                        }
                        let mut i: usize = 0;
                        while i < patterns.len()
                            invariant
                                *pattern == Pattern::Tuple(*patterns),
                                *ty == TypeNode::Tuple(*types),
                                start == old(self).symbol_table@,
                                self.same_but_symbols(old(self)),
                                i <= patterns.len(),
                                patterns.len() == types.len(),
                                ps == pattern_models(patterns@),
                                ys == models(types@),
                                ps.len() == patterns.len(),
                                ys.len() == types.len(),
                                forall|j: int| 0 <= j < patterns.len() ==> #[trigger] ps[j] == patterns@[j].model(),
                                forall|j: int| 0 <= j < types.len() ==> #[trigger] ys[j] == types@[j].model(),
                                bind_patterns(start, ps, ys) == bind_patterns(
                                    self.symbol_table@,
                                    ps.subrange(i as int, ps.len() as int),
                                    ys.subrange(i as int, ys.len() as int),
                                ),
                            decreases patterns.len() - i,
                        {
                            proof {
                                lemma_bind_patterns_step(self.symbol_table@, ps, ys, i as int);
                            }
                            assert(decreases_to!(*patterns => (*patterns)[i as int]));
                            assert(pattern->Tuple_0 == *patterns);
                            assert(decreases_to!(*pattern => pattern->Tuple_0));
                            self.bind_pattern_to_type(&patterns[i], &types[i])?;
                            i += 1;
                        }
                        proof {
                            assert(ps.subrange(i as int, ps.len() as int).len() == 0);
                        }
                        Ok(())
                    },
                    TypeNode::Array(_) | TypeNode::MapOf(_, _) | TypeNode::Range(_, _, _) => {
                        Err(SemanticError::TupleAssignmentMismatch { expected: 1, found: patterns.len() })
                    },
                    _ => Err(SemanticError::InvalidAssignmentTarget { target: String::from_str("tuple pattern") }),
                }
            },
        }
    }
}

} // verus!

verus! {

/// Whether every node of the list is an expression (see `plain_expression`).
fn all_plain(v: &Vec<AstNode>) -> (r: bool)
    ensures
        r == forall|i: int| 0 <= i < v.len() ==> plain_expression(#[trigger] v@[i]),
{
    let mut i: usize = 0;
    while i < v.len()
        invariant
            i <= v.len(),
            forall|a: int| 0 <= a < i ==> plain_expression(#[trigger] v@[a]),
        decreases v.len() - i,
    {
        let plain = !crate::analyzer::analyzer::is_mutating(&v[i]) && !matches!(
            v[i],
            AstNode::Import { .. } | AstNode::Return { .. } | AstNode::Break | AstNode::Continue
        );
        if !plain {
            return false;
        }
        i += 1;
    }
    true
}

impl SemanticAnalyzer {
    /// The table after a `for` binds its pattern: an array binds one
    /// element (a one-element tuple pattern stands for its element), a map a
    /// `(key, value)` pair, a range an `Int`; a loop without an iterable
    /// takes only `_`. `None` when the pattern does not fit or the iterable
    /// cannot be iterated.
    pub open spec fn for_outcome(&self, pattern: PatternModel, iter: Option<AstNode>) -> Option<
        Map<Seq<char>, SymbolModel>,
    > {
        let t = self.symbol_table@;
        match iter {
            None => if pattern is Wildcard {
                Some(t)
            } else {
                None
            },
            Some(n) => match self.inferred(n) {
                Some(TypeModel::Array(e)) => match pattern {
                    PatternModel::Tuple(ps) => if ps.len() == 1 {
                        bind_pattern(t, ps[0], *e)
                    } else {
                        None
                    },
                    _ => bind_pattern(t, pattern, *e),
                },
                Some(TypeModel::MapOf(k, v)) => match pattern {
                    PatternModel::Tuple(ps) => if ps.len() == 2 {
                        match bind_pattern(t, ps[0], *k) {
                            Some(t2) => bind_pattern(t2, ps[1], *v),
                            None => None,
                        }
                    } else {
                        None
                    },
                    _ => None,
                },
                Some(TypeModel::Range(_, _, _)) => if pattern is Identifier || pattern is Wildcard {
                    bind_pattern(t, pattern, TypeModel::Int)
                } else {
                    None
                },
                _ => None,
            },
        }
    }

    /// Analyzes `print` of expressions only: each expression's type must be
    /// printable, and the expression must be valid.
    fn analyze_plain_print(&self, exprs: &Vec<AstNode>) -> (r: Result<(), SemanticError>)
        requires
            forall|i: int| 0 <= i < exprs.len() ==> plain_expression(#[trigger] exprs@[i]),
        ensures
            r is Ok <==> forall|i: int|
                0 <= i < exprs.len() ==> (self.inferred(#[trigger] exprs@[i]) matches Some(t) && printable(t))
                    && self.expression_ok(exprs@[i]),
            ((forall|i: int| 0 <= i < exprs.len() ==> self.inferred(#[trigger] exprs@[i]) is Some && self.expression_ok(exprs@[i]))
                && (exists|i: int|
                0 <= i < exprs.len() && (#[trigger] self.inferred(exprs@[i]) matches Some(t) && !printable(t))))
                ==> r matches Err(SemanticError::InvalidPrintType { .. }),
    {
        let mut i: usize = 0;
        while i < exprs.len()
            invariant
                forall|a: int| 0 <= a < exprs.len() ==> plain_expression(#[trigger] exprs@[a]),
                i <= exprs.len(),
                forall|a: int|
                    0 <= a < i ==> (self.inferred(#[trigger] exprs@[a]) matches Some(t) && printable(t)) && self.expression_ok(
                        exprs@[a],
                    ),
            decreases exprs.len() - i,
        {
            let ty = self.infer_type(&exprs[i])?;
            let ok = match &ty {
                TypeNode::Int | TypeNode::Float | TypeNode::Bool | TypeNode::String | TypeNode::Array(_)
                | TypeNode::MapOf(_, _) | TypeNode::Tuple(_) => true,
                _ => false,
            };
            if !ok {
                return Err(SemanticError::InvalidPrintType { found: ty });
            }
            self.analyze_plain_node(&exprs[i])?;
            i += 1;
        }
        Ok(())
    }

    /// Analyzes `print(...)`: every value must be of a printable type (not
    /// `Void`, a range, a struct or an enum) and valid as an expression.
    pub fn analyze_print(&mut self, node: &mut AstNode) -> (r: Result<(), SemanticError>)
        ensures
            final(self).keeps_setup(old(self)),
            r is Ok ==> final(self).restores_nesting(old(self)),
            !(*old(node) is Print) ==> r is Err && *final(self) == *old(self),
            *old(node) matches AstNode::Print { exprs } ==> ((forall|i: int|
                0 <= i < exprs.len() ==> plain_expression(#[trigger] exprs@[i])) ==> *final(self) == *old(self)
                && *final(node) == *old(node) && (r is Ok
                <==> forall|i: int|
                0 <= i < exprs.len() ==> (old(self).inferred(#[trigger] exprs@[i]) matches Some(t) && printable(t))
                    && old(self).expression_ok(exprs@[i]))),
            *old(node) matches AstNode::Print { exprs } ==> ((forall|i: int|
                0 <= i < exprs.len() ==> plain_expression(#[trigger] exprs@[i]) && old(self).inferred(exprs@[i]) is Some
                    && old(self).expression_ok(exprs@[i])) && (exists|i: int|
                0 <= i < exprs.len() && (#[trigger] old(self).inferred(exprs@[i]) matches Some(t) && !printable(t)))
                ==> r matches Err(SemanticError::InvalidPrintType { .. })),
        decreases old(self).module_sources@.len(), node_size(*old(node)), 1nat,
    {
        if let AstNode::Print { exprs } = &*node {
            if all_plain(exprs) {
                return self.analyze_plain_print(exprs);
            }
        }
        match node {
            AstNode::Print { exprs } => {
                let ghost olds = exprs@;
                let mut i: usize = 0;
                while i < exprs.len()
                    invariant
                        *old(node) is Print,
                        olds == old(node)->Print_exprs@,
                        !(forall|i: int| 0 <= i < olds.len() ==> plain_expression(#[trigger] olds[i])),
                        exprs@.len() == olds.len(),
                        i <= exprs.len(),
                        forall|a: int| i <= a < exprs@.len() ==> exprs@[a] == olds[a],
                        self.keeps_setup(old(self)),
                        self.restores_nesting(old(self)),
                    decreases exprs.len() - i,
                {
                    proof {
                        crate::analyzer::analyzer::lemma_nodes_size_elem(olds, i as int);
                    }
                    let ty = self.infer_type(&exprs[i])?;
                    let ok = match &ty {
                        TypeNode::Int | TypeNode::Float | TypeNode::Bool | TypeNode::String | TypeNode::Array(_)
                        | TypeNode::MapOf(_, _) | TypeNode::Tuple(_) => true,
                        _ => false,
                    };
                    if !ok {
                        return Err(SemanticError::InvalidPrintType { found: ty });
                    }
                    self.analyze_node(&mut exprs[i])?;
                    i += 1;
                }
                Ok(())
            },
            _ => Err(SemanticError::UnexpectedNode { expected: String::from_str("print") }),
        }
    }

    /// Analyzes `if`: the condition must be a `Bool`; each branch is analyzed
    /// in a scope of its own, which sees the enclosing variables and whose
    /// new variables do not outlive it.
    pub fn analyze_conditional_stmt(
        &mut self,
        condition: &mut AstNode,
        then_block: &mut Vec<AstNode>,
        else_branch: &mut Option<Box<AstNode>>,
    ) -> (r: Result<(), SemanticError>)
        ensures
            final(self).keeps_setup(old(self)),
            r is Ok ==> final(self).restores_nesting(old(self)) && final(self).symbol_table@ == old(
                self,
            ).symbol_table@,
            old(self).inferred(*old(condition)) != Some(TypeModel::Bool) ==> r is Err && *final(self) == *old(self),
            (old(self).inferred(*old(condition)) matches Some(t) && t != TypeModel::Bool) ==> r matches Err(
                SemanticError::InvalidConditionType(_),
            ),
            (old(self).inferred(*old(condition)) == Some(TypeModel::Bool) && all_simple(old(then_block)@)
                && else_simple(*old(else_branch))) ==> (r is Ok <==> old(self).all_simple_ok(old(then_block)@) && match *old(
                else_branch,
            ) {
                Some(b) => old(self).simple_node_ok(*b),
                None => true,
            }),
        decreases old(self).module_sources@.len(), nodes_size(old(then_block)@) + else_size(*old(else_branch)) + 1, 1nat,
    {
        let cond_type = self.infer_type(condition)?;
        if !matches!(cond_type, TypeNode::Bool) {
            return Err(
                SemanticError::InvalidConditionType(
                    TypeMismatch { expected: TypeNode::Bool, found: cond_type, value: None, line: None, col: None },
                ),
            );
        }
        let ghost stack0 = self.scope_stack@;
        let saved_table = self.symbol_table.duplicate();
        self.scope_stack.push(saved_table);
        let ghost pushed = *self;
        let then_outcome = self.analyze_program(then_block);
        proof {
            lemma_simple_ok_tables(pushed, *old(self), old(then_block)@);
        }
        then_outcome?;
        match self.scope_stack.pop() {
            Some(prev) => {
                self.symbol_table = prev;
            },
            None => {},
        }
        assert(self.scope_stack@ =~= stack0);
        match else_branch {
            Some(else_node) => {
                let else_saved = self.symbol_table.duplicate();
                self.scope_stack.push(else_saved);
                let ghost pushed2 = *self;
                let ghost b = **else_node;
                let else_outcome = self.analyze_node(&mut **else_node);
                proof {
                    if simple_node(b) && all_simple(old(then_block)@) {
                        lemma_simple_ok_tables(pushed2, *old(self), seq![b]);
                        assert(seq![b][0] == b);
                        assert(pushed2.all_simple_ok(seq![b]) == pushed2.simple_node_ok(b));
                        assert(old(self).all_simple_ok(seq![b]) == old(self).simple_node_ok(b));
                    }
                }
                else_outcome?;
                match self.scope_stack.pop() {
                    Some(prev) => {
                        self.symbol_table = prev;
                    },
                    None => {},
                }
                assert(self.scope_stack@ =~= stack0);
            },
            None => {},
        }
        Ok(())
    }

    /// Analyzes `for`: binds the loop pattern to what the iterable gives
    /// (see `for_outcome`) in a scope of its own and analyzes the body inside
    /// a loop, where `break` and `continue` are allowed.
    pub fn analyze_for_stmt(&mut self, pattern: &mut Pattern, iterable: Option<&mut AstNode>, body: &mut Vec<AstNode>) -> (r: Result<
        (),
        SemanticError,
    >)
        ensures
            final(self).keeps_setup(old(self)),
            r is Ok ==> final(self).restores_nesting(old(self)) && final(self).symbol_table@ == old(
                self,
            ).symbol_table@,
            old(self).for_outcome(
                old(pattern).model(),
                match iterable {
                    Some(n) => Some(*n),
                    None => None,
                },
            ) is None ==> r is Err,
            (iterable matches Some(n) && (old(self).inferred(*n) matches Some(t) && !(t is Array || t is MapOf
                || t is Range))) ==> (r matches Err(SemanticError::InvalidAssignmentTarget { .. })),
            ({
                let outcome = old(self).for_outcome(
                    old(pattern).model(),
                    match iterable {
                        Some(n) => Some(*n),
                        None => None,
                    },
                );
                outcome is Some && old(self).loop_depth < usize::MAX && all_simple(old(body)@) ==> (r is Ok
                    <==> old(self).simple_ok_in(outcome.unwrap(), old(self).loop_depth + 1, old(body)@))
            }),
        decreases old(self).module_sources@.len(), nodes_size(old(body)@) + 1, 1nat,
    {
        let outer_table = self.symbol_table.duplicate();
        match iterable {
            Some(iter_node) => {
                let iter_type = self.infer_type(iter_node)?;
                match iter_type {
                    TypeNode::Array(elem_type) => {
                        match pattern {
                            Pattern::Tuple(patterns) => {
                                proof {
                                    lemma_pattern_models(patterns@);
                                }
                                if patterns.len() != 1 {
                                    return Err(
                                        SemanticError::InvalidAssignmentTarget {
                                            target: String::from_str("Cannot use tuple pattern when iterating an array"),
                                        },
                                    );
                                }
                                self.bind_pattern_to_type(&patterns[0], &*elem_type)?;
                            },
                            _ => {
                                self.bind_pattern_to_type(pattern, &*elem_type)?;
                            },
                        }
                    },
                    TypeNode::MapOf(key_type, value_type) => {
                        match pattern {
                            Pattern::Tuple(patterns) => {
                                proof {
                                    lemma_pattern_models(patterns@);
                                }
                                if patterns.len() != 2 {
                                    return Err(SemanticError::TupleAssignmentMismatch { expected: 2, found: patterns.len() });
                                }
                                self.bind_pattern_to_type(&patterns[0], &*key_type)?;
                                self.bind_pattern_to_type(&patterns[1], &*value_type)?;
                            },
                            _ => {
                                return Err(
                                    SemanticError::InvalidAssignmentTarget {
                                        target: String::from_str("Expected tuple pattern (key, value) when iterating a map"),
                                    },
                                );
                            },
                        }
                    },
                    TypeNode::Range(_, _, _) => {
                        match pattern {
                            Pattern::Identifier(_) | Pattern::Wildcard => {
                                self.bind_pattern_to_type(pattern, &TypeNode::Int)?;
                            },
                            _ => {
                                return Err(
                                    SemanticError::InvalidAssignmentTarget {
                                        target: String::from_str("Loop variable pattern does not match range type"),
                                    },
                                );
                            },
                        }
                    },
                    _ => {
                        return Err(
                            SemanticError::InvalidAssignmentTarget { target: String::from_str("Cannot iterate non-iterable type") },
                        );
                    },
                }
            },
            None => {
                match pattern {
                    Pattern::Wildcard => {},
                    _ => {
                        return Err(
                            SemanticError::InvalidAssignmentTarget {
                                target: String::from_str("Cannot use a loop variable pattern without an iterable"),
                            },
                        );
                    },
                }
            },
        }
        if self.loop_depth == usize::MAX {
            return Err(SemanticError::UnexpectedNode { expected: String::from_str("fewer nested loops") });
        }
        self.loop_depth = self.loop_depth + 1;
        let ghost body_state = *self;
        let body_outcome = self.analyze_program(body);
        proof {
            if old(self).simple_ok_in(self.symbol_table@, body_state.loop_depth as int, old(body)@) {
                let s = choose|s: SemanticAnalyzer|
                    s.symbol_table@ == self.symbol_table@ && s.function_table@ == old(self).function_table@
                        && s.loop_depth == body_state.loop_depth && #[trigger] s.all_simple_ok(old(body)@);
                if all_simple(old(body)@) {
                    lemma_simple_ok_tables(s, body_state, old(body)@);
                }
            }
            if all_simple(old(body)@) {
                assert(body_state.all_simple_ok(old(body)@) ==> old(self).simple_ok_in(
                    body_state.symbol_table@,
                    body_state.loop_depth as int,
                    old(body)@,
                ));
            }
        }
        body_outcome?;
        self.loop_depth = self.loop_depth - 1;
        self.symbol_table = outer_table;
        Ok(())
    }
}

} // verus!
