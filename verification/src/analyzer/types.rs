use crate::parser::ast::{AstNode, Pattern, TypeNode};
use crate::text::{decimal, joined, usize_to_string};
use vstd::prelude::*;
use vstd::string::StringExecFns;

verus! {

/// An expected type and the type found instead.
#[derive(Debug)]
pub struct TypeMismatch {
    pub expected: TypeNode,
    pub found: TypeNode,
    pub value: Option<Box<AstNode>>,
    pub line: Option<usize>,
    pub col: Option<usize>,
}

/// An error about a named item.
#[derive(Debug)]
pub struct NamedError {
    pub name: String,
}

/// The errors the semantic analyzer reports.
#[derive(Debug)]
pub enum SemanticError {
    VariableRedeclaration(NamedError),
    UndeclaredVariable(NamedError),
    VarTypeMismatch(TypeMismatch),
    TupleAssignmentMismatch { expected: usize, found: usize },
    InvalidAssignmentTarget { target: String },
    OutOfScopeVariable(NamedError),
    InvalidMapKeyType { found: TypeNode, expected: TypeNode },
    FunctionRedeclaration(NamedError),
    FunctionParamRedeclaration(NamedError),
    MissingParamType(NamedError),
    UndeclaredFunction(NamedError),
    InvalidFunctionCall { func: String },
    FunctionArgumentMismatch { name: String, expected: usize, found: usize },
    FunctionArgumentTypeMismatch { name: String, expected: TypeNode, found: TypeNode },
    MissingFunctionReturn { function: String },
    InvalidReturnInVoidFunction { function: String },
    ReturnTypeMismatch { function: String, mismatch: TypeMismatch },
    InvalidPublicName(NamedError),
    OperatorTypeMismatch(TypeMismatch),
    EmptyCollectionTypeInferenceError(TypeMismatch),
    InvalidConditionType(TypeMismatch),
    InvalidPrintType { found: TypeNode },
    UnexpectedNode { expected: String },
    InvalidForIterableType { found: TypeNode },
    ArrayIterationWithTuple { tuple_len: usize },
    MapIterationRequiresTuple,
    NonIterableType { found: TypeNode },
    InfiniteLoopWithPattern { pattern: Pattern },
    RangeIterationTypeMismatch { expected: TypeNode, found: TypeNode },
    StructRedeclaration(NamedError),
    DuplicateField { struct_name: String, field: String },
    EnumRedeclaration(NamedError),
    DuplicateEnumVariant { enum_name: String, variant: String },
    ModuleNotFound(String),
    ParseError,
    ParseErrorInModule { file: String, error: String },
}

/// The code of each error kind.
pub open spec fn error_code(e: SemanticError) -> Seq<char> {
    match e {
        SemanticError::VariableRedeclaration(_) => "E0001"@,
        SemanticError::UndeclaredVariable(_) => "E0002"@,
        SemanticError::VarTypeMismatch(_) => "E0003"@,
        SemanticError::TupleAssignmentMismatch { .. } => "E0004"@,
        SemanticError::InvalidAssignmentTarget { .. } => "E0005"@,
        SemanticError::OutOfScopeVariable(_) => "E0006"@,
        SemanticError::InvalidMapKeyType { .. } => "E0007"@,
        SemanticError::FunctionRedeclaration(_) => "E0101"@,
        SemanticError::FunctionParamRedeclaration(_) => "E0102"@,
        SemanticError::MissingParamType(_) => "E0103"@,
        SemanticError::UndeclaredFunction(_) => "E0104"@,
        SemanticError::InvalidFunctionCall { .. } => "E0105"@,
        SemanticError::FunctionArgumentMismatch { .. } => "E0106"@,
        SemanticError::FunctionArgumentTypeMismatch { .. } => "E0107"@,
        SemanticError::MissingFunctionReturn { .. } => "E0108"@,
        SemanticError::InvalidReturnInVoidFunction { .. } => "E0109"@,
        SemanticError::ReturnTypeMismatch { .. } => "E0110"@,
        SemanticError::InvalidPublicName(_) => "E0111"@,
        SemanticError::OperatorTypeMismatch(_) => "E0201"@,
        SemanticError::EmptyCollectionTypeInferenceError(_) => "E0202"@,
        SemanticError::InvalidConditionType(_) => "E0203"@,
        SemanticError::InvalidPrintType { .. } => "E0301"@,
        SemanticError::UnexpectedNode { .. } => "E0302"@,
        SemanticError::InvalidForIterableType { .. } => "E0401"@,
        SemanticError::ArrayIterationWithTuple { .. } => "E0402"@,
        SemanticError::MapIterationRequiresTuple => "E0403"@,
        SemanticError::NonIterableType { .. } => "E0404"@,
        SemanticError::InfiniteLoopWithPattern { .. } => "E0405"@,
        SemanticError::RangeIterationTypeMismatch { .. } => "E0406"@,
        SemanticError::StructRedeclaration(_) => "E0501"@,
        SemanticError::DuplicateField { .. } => "E0502"@,
        SemanticError::EnumRedeclaration(_) => "E0601"@,
        SemanticError::DuplicateEnumVariant { .. } => "E0602"@,
        SemanticError::ModuleNotFound(_) => "E0701"@,
        SemanticError::ParseError => "E0702"@,
        SemanticError::ParseErrorInModule { .. } => "E0703"@,
    }
}

/// Every error code is `E` and four digits: five characters, none of them `]`.
pub proof fn lemma_error_code_shape(e: SemanticError)
    ensures
        error_code(e).len() == 5,
        forall|i: int| 0 <= i < 5 ==> #[trigger] error_code(e)[i] != ']',
{
    reveal_strlit("E0001");
    reveal_strlit("E0002");
    reveal_strlit("E0003");
    reveal_strlit("E0004");
    reveal_strlit("E0005");
    reveal_strlit("E0006");
    reveal_strlit("E0007");
    reveal_strlit("E0101");
    reveal_strlit("E0102");
    reveal_strlit("E0103");
    reveal_strlit("E0104");
    reveal_strlit("E0105");
    reveal_strlit("E0106");
    reveal_strlit("E0107");
    reveal_strlit("E0108");
    reveal_strlit("E0109");
    reveal_strlit("E0110");
    reveal_strlit("E0111");
    reveal_strlit("E0201");
    reveal_strlit("E0202");
    reveal_strlit("E0203");
    reveal_strlit("E0301");
    reveal_strlit("E0302");
    reveal_strlit("E0401");
    reveal_strlit("E0402");
    reveal_strlit("E0403");
    reveal_strlit("E0404");
    reveal_strlit("E0405");
    reveal_strlit("E0406");
    reveal_strlit("E0501");
    reveal_strlit("E0502");
    reveal_strlit("E0601");
    reveal_strlit("E0602");
    reveal_strlit("E0701");
    reveal_strlit("E0702");
    reveal_strlit("E0703");
}

impl SemanticError {
    /// The error code of this error (`E0001` ... `E0703`).
    pub fn code(&self) -> (r: &'static str)
        ensures
            r@ == error_code(*self),
    {
        match self {
            SemanticError::VariableRedeclaration(_) => "E0001",
            SemanticError::UndeclaredVariable(_) => "E0002",
            SemanticError::VarTypeMismatch(_) => "E0003",
            SemanticError::TupleAssignmentMismatch { .. } => "E0004",
            SemanticError::InvalidAssignmentTarget { .. } => "E0005",
            SemanticError::OutOfScopeVariable(_) => "E0006",
            SemanticError::InvalidMapKeyType { .. } => "E0007",
            SemanticError::FunctionRedeclaration(_) => "E0101",
            SemanticError::FunctionParamRedeclaration(_) => "E0102",
            SemanticError::MissingParamType(_) => "E0103",
            SemanticError::UndeclaredFunction(_) => "E0104",
            SemanticError::InvalidFunctionCall { .. } => "E0105",
            SemanticError::FunctionArgumentMismatch { .. } => "E0106",
            SemanticError::FunctionArgumentTypeMismatch { .. } => "E0107",
            SemanticError::MissingFunctionReturn { .. } => "E0108",
            SemanticError::InvalidReturnInVoidFunction { .. } => "E0109",
            SemanticError::ReturnTypeMismatch { .. } => "E0110",
            SemanticError::InvalidPublicName(_) => "E0111",
            SemanticError::OperatorTypeMismatch(_) => "E0201",
            SemanticError::EmptyCollectionTypeInferenceError(_) => "E0202",
            SemanticError::InvalidConditionType(_) => "E0203",
            SemanticError::InvalidPrintType { .. } => "E0301",
            SemanticError::UnexpectedNode { .. } => "E0302",
            SemanticError::InvalidForIterableType { .. } => "E0401",
            SemanticError::ArrayIterationWithTuple { .. } => "E0402",
            SemanticError::MapIterationRequiresTuple => "E0403",
            SemanticError::NonIterableType { .. } => "E0404",
            SemanticError::InfiniteLoopWithPattern { .. } => "E0405",
            SemanticError::RangeIterationTypeMismatch { .. } => "E0406",
            SemanticError::StructRedeclaration(_) => "E0501",
            SemanticError::DuplicateField { .. } => "E0502",
            SemanticError::EnumRedeclaration(_) => "E0601",
            SemanticError::DuplicateEnumVariant { .. } => "E0602",
            SemanticError::ModuleNotFound(_) => "E0701",
            SemanticError::ParseError => "E0702",
            SemanticError::ParseErrorInModule { .. } => "E0703",
        }
    }
}

/// The display text of a type: `Int`, `Array<Int>`, `Map<String, Int>`,
/// `(Int, Bool)`, `Struct P`, `Range<Int, Int, inclusive>`, ...
pub open spec fn type_text(t: TypeNode) -> Seq<char>
    decreases t, 0nat,
{
    match t {
        TypeNode::Float => "Float"@,
        TypeNode::Int => "Int"@,
        TypeNode::String => "String"@,
        TypeNode::Bool => "Bool"@,
        TypeNode::Void => "Void"@,
        TypeNode::Array(inner) => "Array<"@ + type_text(*inner) + ">"@,
        TypeNode::MapOf(k, v) => "Map<"@ + type_text(*k) + ", "@ + type_text(*v) + ">"@,
        TypeNode::Tuple(ts) => {
            proof {
                assert(decreases_to!(t => ts));
                assert(decreases_to!(ts => ts@));
            }
            "("@ + joined(types_text(ts@, ts@.len()), ", "@) + ")"@
        },
        TypeNode::Struct(name, _) => "Struct "@ + name@,
        TypeNode::Enum(name, _) => "Enum "@ + name@,
        TypeNode::Range(a, b, inclusive) => "Range<"@ + type_text(*a) + ", "@ + type_text(*b) + if inclusive {
            ", inclusive"@
        } else {
            Seq::empty()
        } + ">"@,
        TypeNode::TypeRef(name) => name@,
    }
}

/// The display texts of the first `n` types of `ts`.
pub open spec fn types_text(ts: Seq<TypeNode>, n: nat) -> Seq<Seq<char>>
    decreases ts, n,
{
    if n == 0 || n > ts.len() {
        Seq::empty()
    } else {
        types_text(ts, (n - 1) as nat).push(type_text(ts[n - 1]))
    }
}

/// The display name of a type: `Int`, `Array<Int>`, `Map<String, Int>`, `(Int, Bool)`, ...
pub fn display_type(t: &TypeNode) -> (r: String)
    ensures
        r@ == type_text(*t),
    decreases t,
{
    match t {
        TypeNode::Float => String::from_str("Float"),
        TypeNode::Int => String::from_str("Int"),
        TypeNode::String => String::from_str("String"),
        TypeNode::Bool => String::from_str("Bool"),
        TypeNode::Void => String::from_str("Void"),
        TypeNode::Array(inner) => {
            let mut s = String::from_str("Array<");
            s.append(display_type(inner).as_str());
            s.append(">");
            s
        },
        TypeNode::MapOf(k, v) => {
            let mut s = String::from_str("Map<");
            s.append(display_type(k).as_str());
            s.append(", ");
            s.append(display_type(v).as_str());
            s.append(">");
            s
        },
        TypeNode::Tuple(ts) => {
            let mut s = String::from_str("(");
            let mut i: usize = 0;
            while i < ts.len()
                invariant
                    *t == TypeNode::Tuple(*ts),
                    i <= ts.len(),
                    types_text(ts@, i as nat).len() == i,
                    s@ == "("@ + joined(types_text(ts@, i as nat), ", "@),
                decreases ts.len() - i,
            {
                assert(decreases_to!(*ts => (*ts)[i as int]));
                assert(t->Tuple_0 == *ts);
                assert(decreases_to!(*t => t->Tuple_0));
                let ghost prev = types_text(ts@, i as nat);
                if i > 0 {
                    s.append(", ");
                }
                s.append(display_type(&ts[i]).as_str());
                i += 1;
                assert(types_text(ts@, i as nat) == prev.push(type_text(ts@[i - 1])));
                assert(types_text(ts@, i as nat).drop_last() =~= prev);
            }
            s.append(")");
            s
        },
        TypeNode::Struct(name, _) => {
            let mut s = String::from_str("Struct ");
            s.append(name.as_str());
            s
        },
        TypeNode::Enum(name, _) => {
            let mut s = String::from_str("Enum ");
            s.append(name.as_str());
            s
        },
        TypeNode::Range(a, b, inclusive) => {
            let mut s = String::from_str("Range<");
            s.append(display_type(a).as_str());
            s.append(", ");
            s.append(display_type(b).as_str());
            if *inclusive {
                s.append(", inclusive");
            }
            s.append(">");
            s
        },
        TypeNode::TypeRef(name) => name.clone(),
    }
}

/// `expected E, found F`.
pub open spec fn mismatch_text(m: TypeMismatch) -> Seq<char> {
    "expected "@ + type_text(m.expected) + ", found "@ + type_text(m.found)
}

/// The description of an error, after its `error[CODE]: ` prefix.
pub open spec fn error_body(e: SemanticError) -> Seq<char> {
    match e {
        SemanticError::VariableRedeclaration(n) => "variable '"@ + n.name@ + "' redeclared in this scope"@,
        SemanticError::UndeclaredVariable(n) => "use of undeclared variable '"@ + n.name@ + "'"@,
        SemanticError::VarTypeMismatch(m) => "type mismatch: "@ + mismatch_text(m),
        SemanticError::TupleAssignmentMismatch { expected, found } => "tuple assignment mismatch: expected "@
            + decimal(expected as nat) + " elements, found "@ + decimal(found as nat),
        SemanticError::InvalidAssignmentTarget { target } => "invalid assignment target: "@ + target@,
        SemanticError::OutOfScopeVariable(n) => "variable '"@ + n.name@ + "' is out of scope here"@,
        SemanticError::InvalidMapKeyType { found, expected } => "invalid map key type: expected "@ + type_text(
            expected,
        ) + ", found "@ + type_text(found),
        SemanticError::FunctionRedeclaration(n) => "function '"@ + n.name@ + "' redeclared"@,
        SemanticError::FunctionParamRedeclaration(n) => "duplicate parameter name '"@ + n.name@ + "'"@,
        SemanticError::MissingParamType(n) => "missing type annotation for parameter '"@ + n.name@ + "'"@,
        SemanticError::UndeclaredFunction(n) => "call to undeclared function '"@ + n.name@ + "'"@,
        SemanticError::InvalidFunctionCall { func } => "invalid function call target: "@ + func@,
        SemanticError::FunctionArgumentMismatch { name, expected, found } => "function '"@ + name@ + "' expects "@
            + decimal(expected as nat) + " arguments, found "@ + decimal(found as nat),
        SemanticError::FunctionArgumentTypeMismatch { name, expected, found } => "function '"@ + name@
            + "' argument type mismatch: expected "@ + type_text(expected) + ", found "@ + type_text(found),
        SemanticError::MissingFunctionReturn { function } => "function '"@ + function@ + "' must return a value"@,
        SemanticError::InvalidReturnInVoidFunction { function } => "function '"@ + function@
            + "' cannot return a value (declared Void)"@,
        SemanticError::ReturnTypeMismatch { function, mismatch } => "return type mismatch in '"@ + function@ + "': "@
            + mismatch_text(mismatch),
        SemanticError::InvalidPublicName(n) => "public function '"@ + n.name@ + "' must start with an uppercase letter"@,
        SemanticError::OperatorTypeMismatch(m) => "operator type mismatch: "@ + mismatch_text(m),
        SemanticError::EmptyCollectionTypeInferenceError(m) => "cannot infer type of empty collection: "@
            + mismatch_text(m),
        SemanticError::InvalidConditionType(m) => "invalid condition type: "@ + mismatch_text(m),
        SemanticError::InvalidPrintType { found } => "cannot print value of type "@ + type_text(found),
        SemanticError::UnexpectedNode { expected } => "unexpected construct: expected "@ + expected@,
        SemanticError::InvalidForIterableType { found } => "invalid iterable type in for-loop: "@ + type_text(found),
        SemanticError::ArrayIterationWithTuple { tuple_len } => "array iteration does not support tuple pattern of length "@
            + decimal(tuple_len as nat),
        SemanticError::MapIterationRequiresTuple => "map iteration requires a tuple pattern (key, value)"@,
        SemanticError::NonIterableType { found } => "non-iterable type in for-loop: "@ + type_text(found),
        SemanticError::InfiniteLoopWithPattern { .. } => "infinite loop with pattern is not allowed"@,
        SemanticError::RangeIterationTypeMismatch { expected, found } => "range iteration type mismatch: expected "@
            + type_text(expected) + ", found "@ + type_text(found),
        SemanticError::StructRedeclaration(n) => "struct '"@ + n.name@ + "' redeclared"@,
        SemanticError::DuplicateField { struct_name, field } => "struct '"@ + struct_name@ + "' has duplicate field '"@
            + field@ + "'"@,
        SemanticError::EnumRedeclaration(n) => "enum '"@ + n.name@ + "' redeclared"@,
        SemanticError::DuplicateEnumVariant { enum_name, variant } => "enum '"@ + enum_name@
            + "' has duplicate variant '"@ + variant@ + "'"@,
        SemanticError::ModuleNotFound(p) => "module not found: "@ + p@,
        SemanticError::ParseError => "parse error in imported module"@,
        SemanticError::ParseErrorInModule { file, error } => file@ + ": "@ + error@,
    }
}

/// The full text of an error: `error[CODE]: ` and its description, or
/// `error[E0703] in FILE: ERROR` for a parse error in an imported module.
pub open spec fn error_message(e: SemanticError) -> Seq<char> {
    match e {
        SemanticError::ParseErrorInModule { file, error } => "error[E0703] in "@ + file@ + ": "@ + error@,
        _ => "error["@ + error_code(e) + "]: "@ + error_body(e),
    }
}

impl TypeMismatch {
    /// `expected E, found F`.
    pub fn message(&self) -> (r: String)
        ensures
            r@ == mismatch_text(*self),
    {
        let mut s = String::from_str("expected ");
        s.append(display_type(&self.expected).as_str());
        s.append(", found ");
        s.append(display_type(&self.found).as_str());
        s
    }
}

/// `error[CODE]: ` followed by `body`.
fn with_code(code: &str, body: &str) -> (r: String)
    ensures
        r@ == "error["@ + code@ + "]: "@ + body@,
{
    let mut s = String::from_str("error[");
    s.append(code);
    s.append("]: ");
    s.append(body);
    s
}

/// `a` then `b` then `c`.
fn join3(a: &str, b: &str, c: &str) -> (r: String)
    ensures
        r@ == a@ + b@ + c@,
{
    let mut s = String::from_str(a);
    s.append(b);
    s.append(c);
    s
}

impl SemanticError {
    /// The error message: `error[CODE]: ` and a description of the error
    /// (`error[E0703] in FILE: ERROR` for a parse error in an imported module).
    pub fn message(&self) -> (r: String)
        ensures
            r@ == error_message(*self),
    {
        proof {
            reveal_strlit("");
        }
        let body: String = match self {
            SemanticError::VariableRedeclaration(n) => join3("variable '", n.name.as_str(), "' redeclared in this scope"),
            SemanticError::UndeclaredVariable(n) => join3("use of undeclared variable '", n.name.as_str(), "'"),
            SemanticError::VarTypeMismatch(m) => {
                let mm = m.message();
                join3("type mismatch: ", mm.as_str(), "")
            },
            SemanticError::TupleAssignmentMismatch { expected, found } => {
                let mut s = join3("tuple assignment mismatch: expected ", usize_to_string(*expected).as_str(), " elements, found ");
                s.append(usize_to_string(*found).as_str());
                s
            },
            SemanticError::InvalidAssignmentTarget { target } => join3("invalid assignment target: ", target.as_str(), ""),
            SemanticError::OutOfScopeVariable(n) => join3("variable '", n.name.as_str(), "' is out of scope here"),
            SemanticError::InvalidMapKeyType { found, expected } => {
                let mut s = join3("invalid map key type: expected ", display_type(expected).as_str(), ", found ");
                s.append(display_type(found).as_str());
                s
            },
            SemanticError::FunctionRedeclaration(n) => join3("function '", n.name.as_str(), "' redeclared"),
            SemanticError::FunctionParamRedeclaration(n) => join3("duplicate parameter name '", n.name.as_str(), "'"),
            SemanticError::MissingParamType(n) => join3("missing type annotation for parameter '", n.name.as_str(), "'"),
            SemanticError::UndeclaredFunction(n) => join3("call to undeclared function '", n.name.as_str(), "'"),
            SemanticError::InvalidFunctionCall { func } => join3("invalid function call target: ", func.as_str(), ""),
            SemanticError::FunctionArgumentMismatch { name, expected, found } => {
                let mut s = join3("function '", name.as_str(), "' expects ");
                s.append(usize_to_string(*expected).as_str());
                s.append(" arguments, found ");
                s.append(usize_to_string(*found).as_str());
                s
            },
            SemanticError::FunctionArgumentTypeMismatch { name, expected, found } => {
                let mut s = join3("function '", name.as_str(), "' argument type mismatch: expected ");
                s.append(display_type(expected).as_str());
                s.append(", found ");
                s.append(display_type(found).as_str());
                s
            },
            SemanticError::MissingFunctionReturn { function } => join3("function '", function.as_str(), "' must return a value"),
            SemanticError::InvalidReturnInVoidFunction { function } => join3(
                "function '",
                function.as_str(),
                "' cannot return a value (declared Void)",
            ),
            SemanticError::ReturnTypeMismatch { function, mismatch } => {
                let mut s = join3("return type mismatch in '", function.as_str(), "': ");
                s.append(mismatch.message().as_str());
                s
            },
            SemanticError::InvalidPublicName(n) => join3(
                "public function '",
                n.name.as_str(),
                "' must start with an uppercase letter",
            ),
            SemanticError::OperatorTypeMismatch(m) => join3("operator type mismatch: ", m.message().as_str(), ""),
            SemanticError::EmptyCollectionTypeInferenceError(m) => join3(
                "cannot infer type of empty collection: ",
                m.message().as_str(),
                "",
            ),
            SemanticError::InvalidConditionType(m) => join3("invalid condition type: ", m.message().as_str(), ""),
            SemanticError::InvalidPrintType { found } => join3("cannot print value of type ", display_type(found).as_str(), ""),
            SemanticError::UnexpectedNode { expected } => join3("unexpected construct: expected ", expected.as_str(), ""),
            SemanticError::InvalidForIterableType { found } => join3(
                "invalid iterable type in for-loop: ",
                display_type(found).as_str(),
                "",
            ),
            SemanticError::ArrayIterationWithTuple { tuple_len } => join3(
                "array iteration does not support tuple pattern of length ",
                usize_to_string(*tuple_len).as_str(),
                "",
            ),
            SemanticError::MapIterationRequiresTuple => String::from_str(
                "map iteration requires a tuple pattern (key, value)",
            ),
            SemanticError::NonIterableType { found } => join3("non-iterable type in for-loop: ", display_type(found).as_str(), ""),
            SemanticError::InfiniteLoopWithPattern { .. } => String::from_str(
                "infinite loop with pattern is not allowed",
            ),
            SemanticError::RangeIterationTypeMismatch { expected, found } => {
                let mut s = join3("range iteration type mismatch: expected ", display_type(expected).as_str(), ", found ");
                s.append(display_type(found).as_str());
                s
            },
            SemanticError::StructRedeclaration(n) => join3("struct '", n.name.as_str(), "' redeclared"),
            SemanticError::DuplicateField { struct_name, field } => {
                let mut s = join3("struct '", struct_name.as_str(), "' has duplicate field '");
                s.append(field.as_str());
                s.append("'");
                s
            },
            SemanticError::EnumRedeclaration(n) => join3("enum '", n.name.as_str(), "' redeclared"),
            SemanticError::DuplicateEnumVariant { enum_name, variant } => {
                let mut s = join3("enum '", enum_name.as_str(), "' has duplicate variant '");
                s.append(variant.as_str());
                s.append("'");
                s
            },
            SemanticError::ModuleNotFound(p) => join3("module not found: ", p.as_str(), ""),
            SemanticError::ParseError => String::from_str("parse error in imported module"),
            SemanticError::ParseErrorInModule { file, error } => {
                let mut s = join3("error[E0703] in ", file.as_str(), ": ");
                s.append(error.as_str());
                return s;
            },
        };
        with_code(self.code(), body.as_str())
    }
}

} // verus!
