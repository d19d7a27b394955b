use crate::lexar::token::TokenType;
use vstd::prelude::*;

verus! {

broadcast use vstd::std_specs::vec::group_vec_axioms;

/// The types of the language.
#[derive(Debug)]
pub enum TypeNode {
    Int,
    Float,
    String,
    Bool,
    Void,
    Array(Box<TypeNode>),
    MapOf(Box<TypeNode>, Box<TypeNode>),
    Tuple(Vec<TypeNode>),
    /// A struct type: its name and its fields in declaration order.
    Struct(String, Vec<(String, TypeNode)>),
    /// An enum type: its name and its variants with their optional payload type.
    Enum(String, Vec<(String, Option<TypeNode>)>),
    /// A range of `Int`s; the flag says whether the end is included.
    Range(Box<TypeNode>, Box<TypeNode>, bool),
    /// A type written by a name the parser does not know.
    TypeRef(String),
}

/// The mathematical model of a type: equal models mean equal types.
pub enum TypeModel {
    Int,
    Float,
    Str,
    Bool,
    Void,
    Array(Box<TypeModel>),
    MapOf(Box<TypeModel>, Box<TypeModel>),
    Tuple(Seq<TypeModel>),
    Struct(Seq<char>, Seq<(Seq<char>, TypeModel)>),
    Enum(Seq<char>, Seq<(Seq<char>, Option<TypeModel>)>),
    Range(Box<TypeModel>, Box<TypeModel>, bool),
    TypeRef(Seq<char>),
}

pub open spec fn models(v: Seq<TypeNode>) -> Seq<TypeModel>
    decreases v,
{
    if v.len() == 0 {
        Seq::empty()
    } else {
        models(v.drop_last()).push(v.last().model())
    }
}

pub open spec fn field_models(v: Seq<(String, TypeNode)>) -> Seq<(Seq<char>, TypeModel)>
    decreases v,
{
    if v.len() == 0 {
        Seq::empty()
    } else {
        field_models(v.drop_last()).push((v.last().0@, v.last().1.model()))
    }
}

pub open spec fn variant_models(v: Seq<(String, Option<TypeNode>)>) -> Seq<(Seq<char>, Option<TypeModel>)>
    decreases v,
{
    if v.len() == 0 {
        Seq::empty()
    } else {
        let last = v.last();
        let m = match last.1 {
            Some(t) => Some(t.model()),
            None => None,
        };
        variant_models(v.drop_last()).push((last.0@, m))
    }
}

impl TypeNode {
    pub open spec fn model(self) -> TypeModel
        decreases self,
    {
        match self {
            TypeNode::Int => TypeModel::Int,
            TypeNode::Float => TypeModel::Float,
            TypeNode::String => TypeModel::Str,
            TypeNode::Bool => TypeModel::Bool,
            TypeNode::Void => TypeModel::Void,
            TypeNode::Array(t) => TypeModel::Array(Box::new(t.model())),
            TypeNode::MapOf(k, v) => TypeModel::MapOf(Box::new(k.model()), Box::new(v.model())),
            TypeNode::Tuple(ts) => TypeModel::Tuple(models(ts@)),
            TypeNode::Struct(n, fs) => TypeModel::Struct(n@, field_models(fs@)),
            TypeNode::Enum(n, vs) => TypeModel::Enum(n@, variant_models(vs@)),
            TypeNode::Range(a, b, inc) => TypeModel::Range(Box::new(a.model()), Box::new(b.model()), inc),
            TypeNode::TypeRef(n) => TypeModel::TypeRef(n@),
        }
    }
}

} // verus!

verus! {

/// Binding patterns on the left of `let`, assignment and `for`.
#[derive(Debug)]
pub enum Pattern {
    Identifier(String),
    Wildcard,
    Tuple(Vec<Pattern>),
}

/// The syntax tree of a program.
#[derive(Debug)]
pub enum AstNode {
    Program(Vec<AstNode>),
    NumberLiteral(i64),
    /// A float literal, kept as its source text.
    FloatLiteral(String),
    StringLiteral(String),
    BoolLiteral(bool),
    Identifier(String),
    ArrayLiteral(Vec<AstNode>),
    MapLiteral(Vec<(AstNode, AstNode)>),
    TupleLiteral(Vec<AstNode>),
    BinaryExpr { left: Box<AstNode>, op: TokenType, right: Box<AstNode> },
    UnaryExpr { op: TokenType, expr: Box<AstNode> },
    FunctionCall { func: Box<AstNode>, args: Vec<AstNode> },
    ElementAccess { array: Box<AstNode>, index: Box<AstNode> },
    LetDecl {
        mutable: bool,
        type_annotation: Option<TypeNode>,
        pattern: Pattern,
        value: Box<AstNode>,
        is_ref_counted: Option<bool>,
    },
    FunctionDecl {
        name: String,
        visibility: String,
        params: Vec<(String, Option<TypeNode>)>,
        return_type: Option<TypeNode>,
        body: Vec<AstNode>,
    },
    StructDecl { name: String, fields: Vec<(String, TypeNode)> },
    EnumDecl { name: String, variants: Vec<(String, Option<TypeNode>)> },
    Import { path: Vec<String>, symbol: Option<String> },
    Assignment { pattern: Pattern, value: Box<AstNode> },
    CompoundAssignment { pattern: Pattern, op: TokenType, value: Box<AstNode> },
    Return { values: Vec<AstNode> },
    Print { exprs: Vec<AstNode> },
    Break,
    Continue,
    ConditionalStmt { condition: Box<AstNode>, then_block: Vec<AstNode>, else_branch: Option<Box<AstNode>> },
    ForLoopStmt { pattern: Pattern, iterable: Option<Box<AstNode>>, body: Vec<AstNode> },
    Block(Vec<AstNode>),
}

pub proof fn lemma_models(v: Seq<TypeNode>)
    ensures
        models(v).len() == v.len(),
        forall|i: int| 0 <= i < v.len() ==> #[trigger] models(v)[i] == v[i].model(),
    decreases v.len(),
{
    if v.len() > 0 {
        lemma_models(v.drop_last());
    }
}

pub proof fn lemma_field_models(v: Seq<(String, TypeNode)>)
    ensures
        field_models(v).len() == v.len(),
        forall|i: int| 0 <= i < v.len() ==> #[trigger] field_models(v)[i] == (v[i].0@, v[i].1.model()),
    decreases v.len(),
{
    if v.len() > 0 {
        lemma_field_models(v.drop_last());
    }
}

pub open spec fn opt_model(t: Option<TypeNode>) -> Option<TypeModel> {
    match t {
        Some(x) => Some(x.model()),
        None => None,
    }
}

pub proof fn lemma_variant_models(v: Seq<(String, Option<TypeNode>)>)
    ensures
        variant_models(v).len() == v.len(),
        forall|i: int| 0 <= i < v.len() ==> #[trigger] variant_models(v)[i] == (v[i].0@, opt_model(v[i].1)),
    decreases v.len(),
{
    if v.len() > 0 {
        lemma_variant_models(v.drop_last());
    }
}

pub fn clone_string(s: &String) -> (r: String)
    ensures
        r@ == s@,
{
    s.clone()
}

impl TypeNode {
    /// A copy of this type with the same model.
    pub fn duplicate(&self) -> (r: TypeNode)
        ensures
            r.model() == self.model(),
        decreases self,
    {
        match self {
            TypeNode::Int => TypeNode::Int,
            TypeNode::Float => TypeNode::Float,
            TypeNode::String => TypeNode::String,
            TypeNode::Bool => TypeNode::Bool,
            TypeNode::Void => TypeNode::Void,
            TypeNode::Array(t) => TypeNode::Array(Box::new(t.duplicate())),
            TypeNode::MapOf(k, v) => TypeNode::MapOf(Box::new(k.duplicate()), Box::new(v.duplicate())),
            TypeNode::Range(a, b, inc) => TypeNode::Range(Box::new(a.duplicate()), Box::new(b.duplicate()), *inc),
            TypeNode::TypeRef(n) => TypeNode::TypeRef(clone_string(n)),
            TypeNode::Tuple(ts) => {
                let mut out: Vec<TypeNode> = Vec::new();
                let mut i: usize = 0;
                while i < ts.len()
                    invariant
                        *self == TypeNode::Tuple(*ts),
                        i <= ts.len(),
                        out.len() == i,
                        forall|j: int| 0 <= j < i ==> (#[trigger] out@[j]).model() == ts@[j].model(),
                    decreases ts.len() - i,
                {
                    assert(decreases_to!(*ts => (*ts)[i as int]));
                    assert(self->Tuple_0 == *ts);
                    assert(decreases_to!(*self => self->Tuple_0));
                    assert(decreases_to!(*self => (*ts)[i as int]));
                    let t = ts[i].duplicate();
                    out.push(t);
                    i += 1;
                }
                proof {
                    lemma_models(out@);
                    lemma_models(ts@);
                    assert(models(out@) =~= models(ts@));
                }
                TypeNode::Tuple(out)
            },
            TypeNode::Struct(n, fs) => {
                let mut out: Vec<(String, TypeNode)> = Vec::new();
                let mut i: usize = 0;
                while i < fs.len()
                    invariant
                        *self == TypeNode::Struct(*n, *fs),
                        i <= fs.len(),
                        out.len() == i,
                        forall|j: int|
                            0 <= j < i ==> (#[trigger] out@[j]).0@ == fs@[j].0@ && out@[j].1.model()
                                == fs@[j].1.model(),
                    decreases fs.len() - i,
                {
                    assert(decreases_to!(*fs => (*fs)[i as int]));
                    assert(self->Struct_1 == *fs);
                    assert(decreases_to!(*self => self->Struct_1));
                    assert(decreases_to!((*fs)[i as int] => (*fs)[i as int].1));
                    assert(decreases_to!(*self => (*fs)[i as int].1));
                    let t = fs[i].1.duplicate();
                    out.push((clone_string(&fs[i].0), t));
                    i += 1;
                }
                proof {
                    lemma_field_models(out@);
                    lemma_field_models(fs@);
                    assert(field_models(out@) =~= field_models(fs@));
                }
                TypeNode::Struct(clone_string(n), out)
            },
            TypeNode::Enum(n, vs) => {
                let mut out: Vec<(String, Option<TypeNode>)> = Vec::new();
                let mut i: usize = 0;
                while i < vs.len()
                    invariant
                        *self == TypeNode::Enum(*n, *vs),
                        i <= vs.len(),
                        out.len() == i,
                        forall|j: int|
                            0 <= j < i ==> (#[trigger] out@[j]).0@ == vs@[j].0@ && opt_model(out@[j].1)
                                == opt_model(vs@[j].1),
                    decreases vs.len() - i,
                {
                    assert(decreases_to!(*vs => (*vs)[i as int]));
                    assert(self->Enum_1 == *vs);
                    assert(decreases_to!(*self => self->Enum_1));
                    assert(decreases_to!((*vs)[i as int] => (*vs)[i as int].1));
                    assert(decreases_to!(*self => (*vs)[i as int].1));
                    let t = match &vs[i].1 {
                        Some(x) => Some(x.duplicate()),
                        None => None,
                    };
                    out.push((clone_string(&vs[i].0), t));
                    i += 1;
                }
                proof {
                    lemma_variant_models(out@);
                    lemma_variant_models(vs@);
                    assert(variant_models(out@) =~= variant_models(vs@));
                }
                TypeNode::Enum(clone_string(n), out)
            },
        }
    }
}

} // verus!

verus! {

/// Whether two types are the same type.
pub fn type_eq(a: &TypeNode, b: &TypeNode) -> (r: bool)
    ensures
        r == (a.model() == b.model()),
    decreases a,
{
    match (a, b) {
        (TypeNode::Int, TypeNode::Int) => true,
        (TypeNode::Float, TypeNode::Float) => true,
        (TypeNode::String, TypeNode::String) => true,
        (TypeNode::Bool, TypeNode::Bool) => true,
        (TypeNode::Void, TypeNode::Void) => true,
        (TypeNode::Array(x), TypeNode::Array(y)) => type_eq(x, y),
        (TypeNode::MapOf(k1, v1), TypeNode::MapOf(k2, v2)) => type_eq(k1, k2) && type_eq(v1, v2),
        (TypeNode::Range(a1, b1, i1), TypeNode::Range(a2, b2, i2)) => *i1 == *i2 && type_eq(a1, a2) && type_eq(
            b1,
            b2,
        ),
        (TypeNode::TypeRef(n1), TypeNode::TypeRef(n2)) => *n1 == *n2,
        (TypeNode::Tuple(xs), TypeNode::Tuple(ys)) => {
            proof {
                lemma_models(xs@);
                lemma_models(ys@);
            }
            if xs.len() != ys.len() {
                return false;
            }
            let mut i: usize = 0;
            while i < xs.len()
                invariant
                    *a == TypeNode::Tuple(*xs),
                    *b == TypeNode::Tuple(*ys),
                    xs.len() == ys.len(),
                    i <= xs.len(),
                    models(xs@).len() == xs.len(),
                    models(ys@).len() == ys.len(),
                    forall|j: int| 0 <= j < xs.len() ==> #[trigger] models(xs@)[j] == xs@[j].model(),
                    forall|j: int| 0 <= j < ys.len() ==> #[trigger] models(ys@)[j] == ys@[j].model(),
                    forall|j: int| 0 <= j < i ==> (#[trigger] xs@[j]).model() == ys@[j].model(),
                decreases xs.len() - i,
            {
                assert(decreases_to!(*xs => (*xs)[i as int]));
                assert(a->Tuple_0 == *xs);
                assert(decreases_to!(*a => a->Tuple_0));
                if !type_eq(&xs[i], &ys[i]) {
                    assert(models(xs@)[i as int] != models(ys@)[i as int]);
                    return false;
                }
                i += 1;
            }
            assert(models(xs@) =~= models(ys@));
            true
        },
        (TypeNode::Struct(n1, fs), TypeNode::Struct(n2, gs)) => {
            proof {
                lemma_field_models(fs@);
                lemma_field_models(gs@);
            }
            if *n1 != *n2 || fs.len() != gs.len() {
                return false;
            }
            let mut i: usize = 0;
            while i < fs.len()
                invariant
                    *a == TypeNode::Struct(*n1, *fs),
                    *b == TypeNode::Struct(*n2, *gs),
                    fs.len() == gs.len(),
                    i <= fs.len(),
                    field_models(fs@).len() == fs.len(),
                    field_models(gs@).len() == gs.len(),
                    forall|j: int|
                        0 <= j < fs.len() ==> #[trigger] field_models(fs@)[j] == (fs@[j].0@, fs@[j].1.model()),
                    forall|j: int|
                        0 <= j < gs.len() ==> #[trigger] field_models(gs@)[j] == (gs@[j].0@, gs@[j].1.model()),
                    forall|j: int|
                        0 <= j < i ==> (#[trigger] fs@[j]).0@ == gs@[j].0@ && fs@[j].1.model() == gs@[j].1.model(),
                decreases fs.len() - i,
            {
                assert(decreases_to!(*fs => (*fs)[i as int]));
                assert(a->Struct_1 == *fs);
                assert(decreases_to!(*a => a->Struct_1));
                assert(decreases_to!((*fs)[i as int] => (*fs)[i as int].1));
                if fs[i].0 != gs[i].0 || !type_eq(&fs[i].1, &gs[i].1) {
                    assert(field_models(fs@)[i as int] != field_models(gs@)[i as int]);
                    return false;
                }
                i += 1;
            }
            assert(field_models(fs@) =~= field_models(gs@));
            true
        },
        (TypeNode::Enum(n1, vs), TypeNode::Enum(n2, ws)) => {
            proof {
                lemma_variant_models(vs@);
                lemma_variant_models(ws@);
            }
            if *n1 != *n2 || vs.len() != ws.len() {
                return false;
            }
            let mut i: usize = 0;
            while i < vs.len()
                invariant
                    *a == TypeNode::Enum(*n1, *vs),
                    *b == TypeNode::Enum(*n2, *ws),
                    vs.len() == ws.len(),
                    i <= vs.len(),
                    variant_models(vs@).len() == vs.len(),
                    variant_models(ws@).len() == ws.len(),
                    forall|j: int|
                        0 <= j < vs.len() ==> #[trigger] variant_models(vs@)[j] == (vs@[j].0@, opt_model(vs@[j].1)),
                    forall|j: int|
                        0 <= j < ws.len() ==> #[trigger] variant_models(ws@)[j] == (ws@[j].0@, opt_model(ws@[j].1)),
                    forall|j: int|
                        0 <= j < i ==> (#[trigger] vs@[j]).0@ == ws@[j].0@ && opt_model(vs@[j].1) == opt_model(
                            ws@[j].1,
                        ),
                decreases vs.len() - i,
            {
                assert(decreases_to!(*vs => (*vs)[i as int]));
                assert(a->Enum_1 == *vs);
                assert(decreases_to!(*a => a->Enum_1));
                assert(decreases_to!((*vs)[i as int] => (*vs)[i as int].1));
                let same = if vs[i].0 != ws[i].0 {
                    false
                } else {
                    match (&vs[i].1, &ws[i].1) {
                        (Some(x), Some(y)) => {
                            assert(decreases_to!((*vs)[i as int].1 => x));
                            type_eq(x, y)
                        },
                        (None, None) => true,
                        _ => false,
                    }
                };
                if !same {
                    assert(variant_models(vs@)[i as int] != variant_models(ws@)[i as int]);
                    return false;
                }
                i += 1;
            }
            assert(variant_models(vs@) =~= variant_models(ws@));
            true
        },
        _ => false,
    }
}

} // verus!

verus! {

/// The mathematical model of a pattern.
pub enum PatternModel {
    Identifier(Seq<char>),
    Wildcard,
    Tuple(Seq<PatternModel>),
}

pub open spec fn pattern_models(v: Seq<Pattern>) -> Seq<PatternModel>
    decreases v,
{
    if v.len() == 0 {
        Seq::empty()
    } else {
        pattern_models(v.drop_last()).push(v.last().model())
    }
}

impl Pattern {
    pub open spec fn model(self) -> PatternModel
        decreases self,
    {
        match self {
            Pattern::Identifier(n) => PatternModel::Identifier(n@),
            Pattern::Wildcard => PatternModel::Wildcard,
            Pattern::Tuple(ps) => PatternModel::Tuple(pattern_models(ps@)),
        }
    }
}

pub proof fn lemma_pattern_models(v: Seq<Pattern>)
    ensures
        pattern_models(v).len() == v.len(),
        forall|i: int| 0 <= i < v.len() ==> #[trigger] pattern_models(v)[i] == v[i].model(),
    decreases v.len(),
{
    if v.len() > 0 {
        lemma_pattern_models(v.drop_last());
    }
}

impl Pattern {
    /// A copy of this pattern with the same model.
    pub fn duplicate(&self) -> (r: Pattern)
        ensures
            r.model() == self.model(),
        decreases self,
    {
        match self {
            Pattern::Identifier(n) => Pattern::Identifier(clone_string(n)),
            Pattern::Wildcard => Pattern::Wildcard,
            Pattern::Tuple(ps) => {
                let mut out: Vec<Pattern> = Vec::new();
                let mut i: usize = 0;
                while i < ps.len()
                    invariant
                        *self == Pattern::Tuple(*ps),
                        i <= ps.len(),
                        out.len() == i,
                        forall|j: int| 0 <= j < i ==> (#[trigger] out@[j]).model() == ps@[j].model(),
                    decreases ps.len() - i,
                {
                    assert(decreases_to!(*ps => (*ps)[i as int]));
                    assert(self->Tuple_0 == *ps);
                    assert(decreases_to!(*self => self->Tuple_0));
                    let p = ps[i].duplicate();
                    out.push(p);
                    i += 1;
                }
                proof {
                    lemma_pattern_models(out@);
                    lemma_pattern_models(ps@);
                    assert(pattern_models(out@) =~= pattern_models(ps@));
                }
                Pattern::Tuple(out)
            },
        }
    }
}

} // verus!

verus! {

/// The mathematical model of an expression.
pub enum ExprModel {
    Number(i64),
    Float(Seq<char>),
    Str(Seq<char>),
    Bool(bool),
    Ident(Seq<char>),
    ArrayOf(Seq<ExprModel>),
    MapOf(Seq<(ExprModel, ExprModel)>),
    TupleOf(Seq<ExprModel>),
    Binary(Box<ExprModel>, TokenType, Box<ExprModel>),
    Unary(TokenType, Box<ExprModel>),
    Call(Box<ExprModel>, Seq<ExprModel>),
    Index(Box<ExprModel>, Box<ExprModel>),
    /// A node that is not an expression.
    Other,
}

/// The model of an expression node.
pub open spec fn expr_model(e: AstNode) -> ExprModel
    decreases e, 0nat,
{
    match e {
        AstNode::NumberLiteral(v) => ExprModel::Number(v),
        AstNode::FloatLiteral(f) => ExprModel::Float(f@),
        AstNode::StringLiteral(t) => ExprModel::Str(t@),
        AstNode::BoolLiteral(b) => ExprModel::Bool(b),
        AstNode::Identifier(n) => ExprModel::Ident(n@),
        AstNode::ArrayLiteral(v) => {
            ExprModel::ArrayOf(expr_models(v@, v@.len()))
        },
        AstNode::MapLiteral(v) => {
            ExprModel::MapOf(pair_models(v@, v@.len()))
        },
        AstNode::TupleLiteral(v) => {
            ExprModel::TupleOf(expr_models(v@, v@.len()))
        },
        AstNode::BinaryExpr { left, op, right } => ExprModel::Binary(
            Box::new(expr_model(*left)),
            op,
            Box::new(expr_model(*right)),
        ),
        AstNode::UnaryExpr { op, expr } => ExprModel::Unary(op, Box::new(expr_model(*expr))),
        AstNode::FunctionCall { func, args } => {
            ExprModel::Call(Box::new(expr_model(*func)), expr_models(args@, args@.len()))
        },
        AstNode::ElementAccess { array, index } => ExprModel::Index(
            Box::new(expr_model(*array)),
            Box::new(expr_model(*index)),
        ),
        _ => ExprModel::Other,
    }
}

/// The models of the first `n` expressions.
pub open spec fn expr_models(v: Seq<AstNode>, n: nat) -> Seq<ExprModel>
    decreases v, n,
{
    if n == 0 || n > v.len() {
        Seq::empty()
    } else {
        expr_models(v, (n - 1) as nat).push(expr_model(v[n - 1]))
    }
}

/// The models of the first `n` entries of a map literal.
pub open spec fn pair_models(v: Seq<(AstNode, AstNode)>, n: nat) -> Seq<(ExprModel, ExprModel)>
    decreases v, n,
{
    if n == 0 || n > v.len() {
        Seq::empty()
    } else {
        pair_models(v, (n - 1) as nat).push((expr_model(v[n - 1].0), expr_model(v[n - 1].1)))
    }
}

/// The models of a list of expressions.
pub open spec fn exprs_model(v: Seq<AstNode>) -> Seq<ExprModel> {
    expr_models(v, v.len())
}

/// Adding an expression to a list adds its model to the list's.
pub proof fn lemma_expr_models_push(v: Seq<AstNode>, e: AstNode)
    ensures
        exprs_model(v.push(e)) == exprs_model(v).push(expr_model(e)),
{
    lemma_expr_models_prefix(v, e, v.len());
}

proof fn lemma_expr_models_prefix(v: Seq<AstNode>, e: AstNode, n: nat)
    requires
        n <= v.len(),
    ensures
        expr_models(v.push(e), n) == expr_models(v, n),
    decreases n,
{
    if n > 0 {
        lemma_expr_models_prefix(v, e, (n - 1) as nat);
    }
}

/// The model of a list has one entry per expression, each the model of the
/// expression at the same place.
pub proof fn lemma_exprs_model_index(v: Seq<AstNode>)
    ensures
        exprs_model(v).len() == v.len(),
        forall|i: int| 0 <= i < v.len() ==> #[trigger] exprs_model(v)[i] == expr_model(v[i]),
{
    lemma_expr_models_index(v, v.len());
}

proof fn lemma_expr_models_index(v: Seq<AstNode>, n: nat)
    requires
        n <= v.len(),
    ensures
        expr_models(v, n).len() == n,
        forall|i: int| 0 <= i < n ==> #[trigger] expr_models(v, n)[i] == expr_model(v[i]),
    decreases n,
{
    if n > 0 {
        lemma_expr_models_index(v, (n - 1) as nat);
    }
}

/// Adding an entry to a list adds its model to the list's.
pub proof fn lemma_pair_models_push(v: Seq<(AstNode, AstNode)>, e: (AstNode, AstNode))
    ensures
        pair_models(v.push(e), v.len() + 1) == pair_models(v, v.len()).push((expr_model(e.0), expr_model(e.1))),
{
    lemma_pair_models_prefix(v, e, v.len());
}

proof fn lemma_pair_models_prefix(v: Seq<(AstNode, AstNode)>, e: (AstNode, AstNode), n: nat)
    requires
        n <= v.len(),
    ensures
        pair_models(v.push(e), n) == pair_models(v, n),
    decreases n,
{
    if n > 0 {
        lemma_pair_models_prefix(v, e, (n - 1) as nat);
    }
}

} // verus!

verus! {

/// The mathematical model of a statement or declaration.
pub enum StmtModel {
    /// An expression standing as a statement.
    Expr(ExprModel),
    /// Whether it is mutable, its written type, its pattern, its value, and
    /// whether it is marked reference counted (unmarked before analysis).
    Let(bool, Option<TypeModel>, PatternModel, ExprModel, Option<bool>),
    /// Name, visibility, parameters with their optional types, return type
    /// and body.
    Function(Seq<char>, Seq<char>, Seq<(Seq<char>, Option<TypeModel>)>, Option<TypeModel>, Seq<StmtModel>),
    Struct(Seq<char>, Seq<(Seq<char>, TypeModel)>),
    Enum(Seq<char>, Seq<(Seq<char>, Option<TypeModel>)>),
    Import(Seq<Seq<char>>, Option<Seq<char>>),
    Assign(PatternModel, ExprModel),
    Return(Seq<ExprModel>),
    Print(Seq<ExprModel>),
    Break,
    Continue,
    If(ExprModel, Seq<StmtModel>, Option<Box<StmtModel>>),
    For(PatternModel, Option<ExprModel>, Seq<StmtModel>),
    Block(Seq<StmtModel>),
    /// A node that is not a statement the parser makes.
    Other,
}

/// The optional type's model.
pub open spec fn opt_type_model(t: Option<TypeNode>) -> Option<TypeModel> {
    match t {
        Some(t) => Some(t.model()),
        None => None,
    }
}

/// The model of a statement node.
pub open spec fn stmt_model(n: AstNode) -> StmtModel
    decreases n, 1nat,
{
    match n {
        AstNode::LetDecl { mutable, type_annotation, pattern, value, is_ref_counted } => StmtModel::Let(
            mutable,
            opt_type_model(type_annotation),
            pattern.model(),
            expr_model(*value),
            is_ref_counted,
        ),
        AstNode::FunctionDecl { name, visibility, params, return_type, body } => {
            StmtModel::Function(
                name@,
                visibility@,
                variant_models(params@),
                opt_type_model(return_type),
                stmt_models(body@, body@.len()),
            )
        },
        AstNode::StructDecl { name, fields } => StmtModel::Struct(name@, field_models(fields@)),
        AstNode::EnumDecl { name, variants } => StmtModel::Enum(name@, variant_models(variants@)),
        AstNode::Import { path, symbol } => StmtModel::Import(
            Seq::new(path@.len(), |i: int| path@[i]@),
            match symbol {
                Some(s) => Some(s@),
                None => None,
            },
        ),
        AstNode::Assignment { pattern, value } => StmtModel::Assign(pattern.model(), expr_model(*value)),
        AstNode::Return { values } => {
            StmtModel::Return(expr_models(values@, values@.len()))
        },
        AstNode::Print { exprs } => {
            StmtModel::Print(expr_models(exprs@, exprs@.len()))
        },
        AstNode::Break => StmtModel::Break,
        AstNode::Continue => StmtModel::Continue,
        AstNode::ConditionalStmt { condition, then_block, else_branch } => {
            StmtModel::If(
                expr_model(*condition),
                stmt_models(then_block@, then_block@.len()),
                match else_branch {
                    Some(b) => Some(Box::new(stmt_model(*b))),
                    None => None,
                },
            )
        },
        AstNode::ForLoopStmt { pattern, iterable, body } => {
            StmtModel::For(
                pattern.model(),
                match iterable {
                    Some(it) => Some(expr_model(*it)),
                    None => None,
                },
                stmt_models(body@, body@.len()),
            )
        },
        AstNode::Block(body) => {
            StmtModel::Block(stmt_models(body@, body@.len()))
        },
        AstNode::Program(_) => StmtModel::Other,
        AstNode::CompoundAssignment { .. } => StmtModel::Other,
        _ => StmtModel::Expr(expr_model(n)),
    }
}

/// The models of the first `n` statements.
pub open spec fn stmt_models(v: Seq<AstNode>, n: nat) -> Seq<StmtModel>
    decreases v, n,
{
    if n == 0 || n > v.len() {
        Seq::empty()
    } else {
        stmt_models(v, (n - 1) as nat).push(stmt_model(v[n - 1]))
    }
}

/// The models of a list of statements.
pub open spec fn stmts_model(v: Seq<AstNode>) -> Seq<StmtModel> {
    stmt_models(v, v.len())
}

/// A list of statements has one model per statement.
pub proof fn lemma_stmts_model_len(v: Seq<AstNode>)
    ensures
        stmts_model(v).len() == v.len(),
{
    lemma_stmt_models_len(v, v.len());
}

proof fn lemma_stmt_models_len(v: Seq<AstNode>, n: nat)
    requires
        n <= v.len(),
    ensures
        stmt_models(v, n).len() == n,
    decreases n,
{
    if n > 0 {
        lemma_stmt_models_len(v, (n - 1) as nat);
    }
}

/// Adding a statement to a list adds its model to the list's.
pub proof fn lemma_stmts_model_push(v: Seq<AstNode>, e: AstNode)
    ensures
        stmts_model(v.push(e)) == stmts_model(v).push(stmt_model(e)),
{
    lemma_stmt_models_prefix(v, e, v.len());
}

proof fn lemma_stmt_models_prefix(v: Seq<AstNode>, e: AstNode, n: nat)
    requires
        n <= v.len(),
    ensures
        stmt_models(v.push(e), n) == stmt_models(v, n),
    decreases n,
{
    if n > 0 {
        lemma_stmt_models_prefix(v, e, (n - 1) as nat);
    }
}

} // verus!
