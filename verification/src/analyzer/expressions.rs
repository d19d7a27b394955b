use crate::analyzer::analyzer::SemanticAnalyzer;
use crate::analyzer::types::{NamedError, SemanticError, TypeMismatch};
use crate::lexar::token::TokenType;
use crate::parser::ast::{clone_string, type_eq, AstNode, TypeModel, TypeNode};
use vstd::prelude::*;
use vstd::string::StringExecFns;

verus! {

broadcast use vstd::std_specs::vec::group_vec_axioms;

/// The type a binary operator gives to operands of types `l` and `r`:
/// comparisons need equal types and give `Bool`; ranges need `Int`s;
/// `&&`/`||` need `Bool`s; arithmetic works on two `Int`s or two `Float`s,
/// and `+` also on two strings (concatenation).
pub open spec fn binop_type(op: TokenType, l: TypeModel, r: TypeModel) -> Option<TypeModel> {
    if op == TokenType::EqEq || op == TokenType::EqEqEq || op == TokenType::NotEq || op == TokenType::NotEqEq
        || op == TokenType::Gt || op == TokenType::Lt || op == TokenType::GtEq || op == TokenType::LtEq {
        if l == r {
            Some(TypeModel::Bool)
        } else {
            None
        }
    } else if op == TokenType::RangeExc || op == TokenType::RangeInc {
        if l == TypeModel::Int && r == TypeModel::Int {
            Some(
                TypeModel::Range(
                    Box::new(TypeModel::Int),
                    Box::new(TypeModel::Int),
                    op == TokenType::RangeInc,
                ),
            )
        } else {
            None
        }
    } else if op == TokenType::AndAnd || op == TokenType::OrOr {
        if l == TypeModel::Bool && r == TypeModel::Bool {
            Some(TypeModel::Bool)
        } else {
            None
        }
    } else if op == TokenType::Plus || op == TokenType::Minus || op == TokenType::Star || op == TokenType::Slash
        || op == TokenType::Percent {
        if (l == TypeModel::Int && r == TypeModel::Int) || (l == TypeModel::Float && r == TypeModel::Float) || (op
            == TokenType::Plus && l == TypeModel::Str && r == TypeModel::Str) {
            Some(l)
        } else {
            None
        }
    } else {
        None
    }
}

/// The types a map key may have.
pub open spec fn valid_key_type(t: TypeModel) -> bool {
    t == TypeModel::Int || t == TypeModel::Str || t == TypeModel::Bool
}

impl SemanticAnalyzer {
    /// The type of the variable `name` in the current scope.
    pub open spec fn var_type(&self, name: Seq<char>) -> Option<TypeModel> {
        if self.symbol_table.view().contains_key(name) {
            Some(self.symbol_table.view()[name].ty)
        } else {
            None
        }
    }

    /// The type of an expression in the current scope, or `None` when it is
    /// ill-typed. Statements have type `Void`.
    pub open spec fn inferred(&self, node: AstNode) -> Option<TypeModel>
        decreases node,
    {
        match node {
            AstNode::NumberLiteral(_) => Some(TypeModel::Int),
            AstNode::FloatLiteral(_) => Some(TypeModel::Float),
            AstNode::StringLiteral(_) => Some(TypeModel::Str),
            AstNode::BoolLiteral(_) => Some(TypeModel::Bool),
            AstNode::Identifier(n) => self.var_type(n@),
            AstNode::BinaryExpr { left, op, right } => match (self.inferred(*left), self.inferred(*right)) {
                (Some(l), Some(r)) => binop_type(op, l, r),
                _ => None,
            },
            AstNode::UnaryExpr { expr, .. } => self.inferred(*expr),
            AstNode::FunctionCall { func, .. } => match *func {
                AstNode::Identifier(n) => if self.function_table.view().contains_key(n@) {
                    Some(self.function_table.view()[n@].1)
                } else {
                    None
                },
                _ => None,
            },
            AstNode::ArrayLiteral(els) => {
                if els.len() == 0 {
                    None
                } else {
                    match self.inferred(els@[0]) {
                        Some(t) => if forall|i: int| 0 <= i < els.len() ==> self.inferred(#[trigger] els@[i]) == Some(t) {
                            Some(TypeModel::Array(Box::new(t)))
                        } else {
                            None
                        },
                        None => None,
                    }
                }
            },
            AstNode::MapLiteral(pairs) => {
                if pairs.len() == 0 {
                    None
                } else {
                    match (self.inferred(pairs@[0].0), self.inferred(pairs@[0].1)) {
                        (Some(kt), Some(vt)) => if valid_key_type(kt) && (forall|i: int|
                            0 <= i < pairs.len() ==> self.inferred((#[trigger] pairs@[i]).0) == Some(kt)
                                && self.inferred(pairs@[i].1) == Some(vt)) {
                            Some(TypeModel::MapOf(Box::new(kt), Box::new(vt)))
                        } else {
                            None
                        },
                        _ => None,
                    }
                }
            },
            AstNode::ElementAccess { array, index } => match (self.inferred(*array), self.inferred(*index)) {
                (Some(TypeModel::Array(e)), Some(TypeModel::Int)) => Some(*e),
                (Some(TypeModel::MapOf(k, v)), Some(it)) => if it == *k {
                    Some(*v)
                } else {
                    None
                },
                _ => None,
            },
            _ => Some(TypeModel::Void),
        }
    }

    /// Infers the type of an expression in the current scope. The result is
    /// exactly `inferred`: `Ok` with that type when it is well-typed, an
    /// error otherwise.
    pub fn infer_type(&self, node: &AstNode) -> (r: Result<TypeNode, SemanticError>)
        ensures
            r is Ok <==> self.inferred(*node) is Some,
            r matches Ok(t) ==> self.inferred(*node) == Some(t.model()),
            node matches AstNode::Identifier(n) ==> (r is Err <==> !self.symbol_table.view().contains_key(n@)),
            node matches AstNode::Identifier(n) ==> (!self.symbol_table.view().contains_key(n@) ==> {
                let outside = self.outer_symbol_table matches Some(o) && o.view().contains_key(n@);
                &&& outside ==> (r matches Err(SemanticError::OutOfScopeVariable(_)))
                &&& !outside ==> (r matches Err(SemanticError::UndeclaredVariable(_)))
            }),
            node matches AstNode::FunctionCall { func, .. } ==> (**func matches AstNode::Identifier(f) ==> (
            !self.function_table.view().contains_key(f@) ==> (r matches Err(SemanticError::UndeclaredFunction(_))))),
        decreases node,
    {
        match node {
            AstNode::NumberLiteral(_) => Ok(TypeNode::Int),
            AstNode::FloatLiteral(_) => Ok(TypeNode::Float),
            AstNode::StringLiteral(_) => Ok(TypeNode::String),
            AstNode::BoolLiteral(_) => Ok(TypeNode::Bool),
            AstNode::Identifier(name) => {
                match self.symbol_table.get(name) {
                    Some(info) => Ok(info.ty.duplicate()),
                    None => {
                        let out_of_scope = match &self.outer_symbol_table {
                            Some(outer) => outer.contains_key(name),
                            None => false,
                        };
                        if out_of_scope {
                            Err(SemanticError::OutOfScopeVariable(NamedError { name: clone_string(name) }))
                        } else {
                            Err(SemanticError::UndeclaredVariable(NamedError { name: clone_string(name) }))
                        }
                    },
                }
            },
            AstNode::BinaryExpr { left, op, right } => {
                let left_type = self.infer_type(left)?;
                let right_type = self.infer_type(right)?;
                self.binary_type(*op, left_type, right_type)
            },
            AstNode::UnaryExpr { expr, .. } => self.infer_type(expr),
            AstNode::FunctionCall { func, .. } => {
                match &**func {
                    AstNode::Identifier(name) => {
                        match self.function_table.get(name) {
                            Some(sig) => Ok(sig.ret.duplicate()),
                            None => Err(SemanticError::UndeclaredFunction(NamedError { name: clone_string(name) })),
                        }
                    },
                    _ => Err(SemanticError::InvalidFunctionCall { func: String::from_str("<expression>") }),
                }
            },
            AstNode::ArrayLiteral(elements) => {
                if elements.len() == 0 {
                    return Err(
                        SemanticError::EmptyCollectionTypeInferenceError(
                            TypeMismatch {
                                expected: TypeNode::Array(Box::new(TypeNode::Int)),
                                found: TypeNode::Array(Box::new(TypeNode::Void)),
                                value: None,
                                line: None,
                                col: None,
                            },
                        ),
                    );
                }
                assert(decreases_to!(*node => node->ArrayLiteral_0));
                assert(decreases_to!(node->ArrayLiteral_0 => node->ArrayLiteral_0@[0]));
                let first_type = self.infer_type(&elements[0])?;
                let mut i: usize = 0;
                while i < elements.len()
                    invariant
                        *node == AstNode::ArrayLiteral(*elements),
                        i <= elements.len(),
                        self.inferred(elements@[0]) == Some(first_type.model()),
                        forall|j: int| 0 <= j < i ==> self.inferred(#[trigger] elements@[j]) == Some(first_type.model()),
                    decreases elements.len() - i,
                {
                    assert(decreases_to!(*elements => (*elements)[i as int]));
                    assert(decreases_to!(*node => node->ArrayLiteral_0));
                    let t = self.infer_type(&elements[i])?;
                    if !type_eq(&t, &first_type) {
                        return Err(
                            SemanticError::VarTypeMismatch(
                                TypeMismatch { expected: first_type, found: t, value: None, line: None, col: None },
                            ),
                        );
                    }
                    i += 1;
                }
                Ok(TypeNode::Array(Box::new(first_type)))
            },
            AstNode::MapLiteral(pairs) => {
                if pairs.len() == 0 {
                    return Err(
                        SemanticError::EmptyCollectionTypeInferenceError(
                            TypeMismatch {
                                expected: TypeNode::MapOf(Box::new(TypeNode::String), Box::new(TypeNode::Int)),
                                found: TypeNode::MapOf(Box::new(TypeNode::Void), Box::new(TypeNode::Void)),
                                value: None,
                                line: None,
                                col: None,
                            },
                        ),
                    );
                }
                assert(decreases_to!(*node => node->MapLiteral_0));
                assert(decreases_to!(node->MapLiteral_0 => node->MapLiteral_0@[0]));
                assert(decreases_to!(node->MapLiteral_0@[0] => node->MapLiteral_0@[0].0));
                assert(decreases_to!(node->MapLiteral_0@[0] => node->MapLiteral_0@[0].1));
                let key_type = self.infer_type(&pairs[0].0)?;
                let value_type = self.infer_type(&pairs[0].1)?;
                match key_type {
                    TypeNode::Int | TypeNode::String | TypeNode::Bool => {},
                    _ => {
                        return Err(
                            SemanticError::InvalidMapKeyType {
                                found: key_type,
                                expected: TypeNode::MapOf(Box::new(TypeNode::Int), Box::new(TypeNode::String)),
                            },
                        );
                    },
                }
                let mut i: usize = 0;
                while i < pairs.len()
                    invariant
                        *node == AstNode::MapLiteral(*pairs),
                        i <= pairs.len(),
                        self.inferred(pairs@[0].0) == Some(key_type.model()),
                        self.inferred(pairs@[0].1) == Some(value_type.model()),
                        forall|j: int|
                            0 <= j < i ==> self.inferred((#[trigger] pairs@[j]).0) == Some(key_type.model())
                                && self.inferred(pairs@[j].1) == Some(value_type.model()),
                    decreases pairs.len() - i,
                {
                    assert(decreases_to!(*pairs => (*pairs)[i as int]));
                    assert(decreases_to!(*node => node->MapLiteral_0));
                    assert(decreases_to!((*pairs)[i as int] => (*pairs)[i as int].0));
                    assert(decreases_to!((*pairs)[i as int] => (*pairs)[i as int].1));
                    let kt = self.infer_type(&pairs[i].0)?;
                    let vt = self.infer_type(&pairs[i].1)?;
                    if !type_eq(&kt, &key_type) {
                        return Err(
                            SemanticError::VarTypeMismatch(
                                TypeMismatch { expected: key_type, found: kt, value: None, line: None, col: None },
                            ),
                        );
                    }
                    if !type_eq(&vt, &value_type) {
                        return Err(
                            SemanticError::VarTypeMismatch(
                                TypeMismatch { expected: value_type, found: vt, value: None, line: None, col: None },
                            ),
                        );
                    }
                    i += 1;
                }
                Ok(TypeNode::MapOf(Box::new(key_type), Box::new(value_type)))
            },
            AstNode::ElementAccess { array, index } => {
                let array_type = self.infer_type(array)?;
                let index_type = self.infer_type(index)?;
                match array_type {
                    TypeNode::Array(elem) => {
                        match index_type {
                            TypeNode::Int => Ok(*elem),
                            _ => Err(
                                SemanticError::VarTypeMismatch(
                                    TypeMismatch {
                                        expected: TypeNode::Int,
                                        found: index_type,
                                        value: None,
                                        line: None,
                                        col: None,
                                    },
                                ),
                            ),
                        }
                    },
                    TypeNode::MapOf(k, v) => {
                        if type_eq(&index_type, &k) {
                            Ok(*v)
                        } else {
                            Err(
                                SemanticError::VarTypeMismatch(
                                    TypeMismatch { expected: *k, found: index_type, value: None, line: None, col: None },
                                ),
                            )
                        }
                    },
                    other => Err(SemanticError::NonIterableType { found: other }),
                }
            },
            _ => Ok(TypeNode::Void),
        }
    }

    /// The type of `left op right` given the operand types (see `binop_type`).
    fn binary_type(&self, op: TokenType, left_type: TypeNode, right_type: TypeNode) -> (r: Result<TypeNode, SemanticError>)
        ensures
            r is Ok <==> binop_type(op, left_type.model(), right_type.model()) is Some,
            r matches Ok(t) ==> binop_type(op, left_type.model(), right_type.model()) == Some(t.model()),
    {
        if op == TokenType::EqEq || op == TokenType::EqEqEq || op == TokenType::NotEq || op == TokenType::NotEqEq
            || op == TokenType::Gt || op == TokenType::Lt || op == TokenType::GtEq || op == TokenType::LtEq {
            if !type_eq(&left_type, &right_type) {
                return Err(
                    SemanticError::OperatorTypeMismatch(
                        TypeMismatch { expected: left_type, found: right_type, value: None, line: None, col: None },
                    ),
                );
            }
            Ok(TypeNode::Bool)
        } else if op == TokenType::RangeExc || op == TokenType::RangeInc {
            let l_int = matches!(left_type, TypeNode::Int);
            let r_int = matches!(right_type, TypeNode::Int);
            if !l_int || !r_int {
                let found = if !l_int {
                    left_type
                } else {
                    right_type
                };
                return Err(
                    SemanticError::OperatorTypeMismatch(
                        TypeMismatch { expected: TypeNode::Int, found, value: None, line: None, col: None },
                    ),
                );
            }
            let inclusive = op == TokenType::RangeInc;
            Ok(TypeNode::Range(Box::new(TypeNode::Int), Box::new(TypeNode::Int), inclusive))
        } else if op == TokenType::AndAnd || op == TokenType::OrOr {
            let l_bool = matches!(left_type, TypeNode::Bool);
            let r_bool = matches!(right_type, TypeNode::Bool);
            if !l_bool || !r_bool {
                let found = if !l_bool {
                    left_type
                } else {
                    right_type
                };
                return Err(
                    SemanticError::OperatorTypeMismatch(
                        TypeMismatch { expected: TypeNode::Bool, found, value: None, line: None, col: None },
                    ),
                );
            }
            Ok(TypeNode::Bool)
        } else if op == TokenType::Plus || op == TokenType::Minus || op == TokenType::Star || op == TokenType::Slash
            || op == TokenType::Percent {
            match (&left_type, &right_type) {
                (TypeNode::Int, TypeNode::Int) => Ok(TypeNode::Int),
                (TypeNode::String, TypeNode::String) if op == TokenType::Plus => Ok(TypeNode::String),
                (TypeNode::Float, TypeNode::Float) => Ok(TypeNode::Float),
                _ => Err(
                    SemanticError::OperatorTypeMismatch(
                        TypeMismatch { expected: left_type, found: right_type, value: None, line: None, col: None },
                    ),
                ),
            }
        } else {
            Err(SemanticError::UnexpectedNode { expected: String::from_str("a binary operator") })
        }
    }
}

/// The type of an expression depends on the types of the variables and
/// functions alone.
pub proof fn lemma_inferred_tables(a: SemanticAnalyzer, b: SemanticAnalyzer, n: AstNode)
    requires
        a.symbol_table@ == b.symbol_table@,
        a.function_table@ == b.function_table@,
    ensures
        a.inferred(n) == b.inferred(n),
    decreases n,
{
    match n {
        AstNode::BinaryExpr { left, right, .. } => {
            lemma_inferred_tables(a, b, *left);
            lemma_inferred_tables(a, b, *right);
        },
        AstNode::UnaryExpr { expr, .. } => {
            lemma_inferred_tables(a, b, *expr);
        },
        AstNode::ArrayLiteral(els) => {
            assert(decreases_to!(n => els));
            assert(decreases_to!(els => els@));
            assert forall|i: int| 0 <= i < els.len() implies a.inferred(#[trigger] els@[i]) == b.inferred(els@[i]) by {
                lemma_inferred_tables(a, b, els@[i]);
            }
        },
        AstNode::MapLiteral(pairs) => {
            assert(decreases_to!(n => pairs));
            assert(decreases_to!(pairs => pairs@));
            assert forall|i: int| 0 <= i < pairs.len() implies a.inferred((#[trigger] pairs@[i]).0) == b.inferred(
                pairs@[i].0,
            ) && a.inferred(pairs@[i].1) == b.inferred(pairs@[i].1) by {
                assert(decreases_to!(pairs@ => pairs@[i]));
                lemma_inferred_tables(a, b, pairs@[i].0);
                lemma_inferred_tables(a, b, pairs@[i].1);
            }
        },
        AstNode::ElementAccess { array, index } => {
            lemma_inferred_tables(a, b, *array);
            lemma_inferred_tables(a, b, *index);
        },
        _ => {},
    }
}

} // verus!
