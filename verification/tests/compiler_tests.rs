use doo::analyzer::types::{display_type, NamedError, SemanticError, TypeMismatch};
use doo::analyzer::SemanticAnalyzer;
use doo::compiler::{
    check_source, location_from_captures, module_error_record, parse_usize, parse_with_recovery,
    record_parse_error, semantic_error_record, skip_to_next_statement, CompileOptions,
};
use doo::lexar::lexer::lex;
use doo::lexar::token::TokenType;
use doo::mir::check::{is_lowerable, lower_program, tops_cost_of};
use doo::parser::ast::{AstNode, TypeNode};
use doo::parser::parser::ParseError;
use doo::parser::Parser;

#[test]
fn parse_usize_reads_like_str_parse() {
    assert_eq!(parse_usize("42"), Some(42));
    assert_eq!(parse_usize("+7"), Some(7));
    assert_eq!(parse_usize("007"), Some(7));
    assert_eq!(parse_usize("+"), None);
    assert_eq!(parse_usize(""), None);
    assert_eq!(parse_usize("-1"), None);
    assert_eq!(parse_usize("12a"), None);
    assert_eq!(parse_usize("++1"), None);
    assert_eq!(parse_usize(&usize::MAX.to_string()), Some(usize::MAX));
    assert_eq!(parse_usize(&format!("{}0", usize::MAX)), None);
}

#[test]
fn location_from_capture_groups() {
    let groups = Some(vec![
        Some("at 6:7: msg".to_string()),
        Some("6".to_string()),
        Some("7".to_string()),
        Some("msg".to_string()),
    ]);
    assert_eq!(
        location_from_captures(&groups, &"whole".to_string()),
        (Some(6), Some(7), "msg".to_string())
    );
    assert_eq!(location_from_captures(&None, &"whole".to_string()), (None, None, "whole".to_string()));
    let partial = Some(vec![Some("x".to_string()), None]);
    assert_eq!(location_from_captures(&partial, &"whole".to_string()), (None, None, "whole".to_string()));
}

#[test]
fn module_error_location_is_read_from_text() {
    let r = module_error_record(
        &"lib/m.my".to_string(),
        &"parse error at 6:7: Expected OpenParen, got Semi".to_string(),
    );
    assert_eq!(r.filename, "lib/m.my");
    assert!(r.is_parse);
    assert_eq!(r.line, Some(6));
    assert_eq!(r.col, Some(7));
    assert_eq!(r.message, "Expected OpenParen, got Semi");

    let r = module_error_record(&"m.my".to_string(), &"unexpected end of input".to_string());
    assert_eq!((r.line, r.col), (None, None));
    assert_eq!(r.message, "unexpected end of input");
}

#[test]
fn semantic_errors_become_records() {
    let e = SemanticError::UndeclaredVariable(NamedError { name: "y".to_string() });
    let r = semantic_error_record(&e, &"main.my".to_string());
    assert_eq!(r.filename, "main.my");
    assert_eq!(r.message, "error[E0002]: use of undeclared variable 'y'");
    assert!(!r.is_parse);
    assert_eq!((r.line, r.col), (None, None));

    let e = SemanticError::ParseErrorInModule {
        file: "m.my".to_string(),
        error: "parse error at 2:5: bad".to_string(),
    };
    let r = semantic_error_record(&e, &"main.my".to_string());
    assert_eq!(r.filename, "m.my");
    assert_eq!((r.line, r.col), (Some(2), Some(5)));
    assert_eq!(r.message, "bad");
}

#[test]
fn parse_error_records() {
    let r = record_parse_error(
        &ParseError::UnexpectedTokenAt { msg: "m".to_string(), line: 1, col: 2 },
        &"f.my".to_string(),
    );
    assert_eq!((r.line, r.col, r.message.as_str(), r.is_parse), (Some(1), Some(2), "m", true));
    let r = record_parse_error(&ParseError::EndOfInput, &"f.my".to_string());
    assert_eq!((r.line, r.col, r.message.as_str()), (None, None, "unexpected end of input"));
}

#[test]
fn skipping_goes_past_the_next_semicolon() {
    let tokens = lex("let = ; let x = 1;");
    let mut parser = Parser::new(&tokens);
    skip_to_next_statement(&mut parser);
    assert_eq!(parser.current, 3);
    let tokens = lex("let x");
    let mut parser = Parser::new(&tokens);
    skip_to_next_statement(&mut parser);
    assert_eq!(parser.current, tokens.len());
}

#[test]
fn recovery_keeps_parsing_after_an_error() {
    let tokens = lex("let = 5; let x = 1;");
    let (stmts, diags) = parse_with_recovery(&tokens, &"main.my".to_string());
    assert_eq!(stmts.len(), 1);
    assert_eq!(diags.len(), 1);
    assert!(diags[0].is_parse);
    assert_eq!(diags[0].filename, "main.my");
    let (stmts, diags) = parse_with_recovery(&lex(""), &"main.my".to_string());
    assert!(stmts.is_empty() && diags.is_empty());
}

#[test]
fn check_source_reports_semantic_errors() {
    let mut analyzer = SemanticAnalyzer::new(None);
    let checked = check_source("fn main() { let x = y; }", &"main.my".to_string(), &mut analyzer);
    assert_eq!(checked.parse_errors, 0);
    assert_eq!(checked.diagnostics.len(), 1);
    assert_eq!(checked.diagnostics[0].message, "error[E0002]: use of undeclared variable 'y'");

    let mut analyzer = SemanticAnalyzer::new(None);
    let checked = check_source("fn main() { let x = 1; }", &"main.my".to_string(), &mut analyzer);
    assert!(checked.diagnostics.is_empty());
    assert_eq!(checked.statements.len(), 1);
}

#[test]
fn check_source_reports_parse_errors_first() {
    let mut analyzer = SemanticAnalyzer::new(None);
    let checked = check_source("let = 5;", &"main.my".to_string(), &mut analyzer);
    assert_eq!(checked.parse_errors, 1);
    assert!(checked.diagnostics[0].is_parse);
}

#[test]
fn lowering_a_checked_program() {
    let mut analyzer = SemanticAnalyzer::new(None);
    let checked = check_source("fn main() { let x = 42; }", &"main.my".to_string(), &mut analyzer);
    assert!(checked.diagnostics.is_empty());
    let program = lower_program(&checked.statements).expect("lowers");
    assert_eq!(program.functions.len(), 1);
    assert_eq!(program.functions[0].name, "main");
}

#[test]
fn lowering_refuses_a_break_outside_a_loop() {
    let nodes = vec![AstNode::FunctionDecl {
        name: "main".to_string(),
        visibility: "private".to_string(),
        params: vec![],
        return_type: None,
        body: vec![AstNode::Break],
    }];
    assert!(lower_program(&nodes).is_none());
    assert_eq!(tops_cost_of(&nodes), Some(2));
}

#[test]
fn lowerability_of_mixed_operands() {
    let bad = AstNode::BinaryExpr {
        left: Box::new(AstNode::NumberLiteral(1)),
        op: doo::lexar::token::TokenType::Minus,
        right: Box::new(AstNode::StringLiteral("a".to_string())),
    };
    assert!(!is_lowerable(&bad));
    let good = AstNode::BinaryExpr {
        left: Box::new(AstNode::StringLiteral("a".to_string())),
        op: doo::lexar::token::TokenType::Plus,
        right: Box::new(AstNode::NumberLiteral(1)),
    };
    assert!(is_lowerable(&good));
}

#[test]
fn type_display_texts() {
    let t = TypeNode::MapOf(Box::new(TypeNode::String), Box::new(TypeNode::Array(Box::new(TypeNode::Int))));
    assert_eq!(display_type(&t), "Map<String, Array<Int>>");
    let t = TypeNode::Tuple(vec![TypeNode::Int, TypeNode::Bool, TypeNode::Float]);
    assert_eq!(display_type(&t), "(Int, Bool, Float)");
    assert_eq!(display_type(&TypeNode::Tuple(vec![])), "()");
    let t = TypeNode::Range(Box::new(TypeNode::Int), Box::new(TypeNode::Int), true);
    assert_eq!(display_type(&t), "Range<Int, Int, inclusive>");
}

#[test]
fn error_message_texts() {
    let m = TypeMismatch { expected: TypeNode::Int, found: TypeNode::String, value: None, line: None, col: None };
    assert_eq!(SemanticError::VarTypeMismatch(m).message(), "error[E0003]: type mismatch: expected Int, found String");
    assert_eq!(
        SemanticError::TupleAssignmentMismatch { expected: 2, found: 3 }.message(),
        "error[E0004]: tuple assignment mismatch: expected 2 elements, found 3"
    );
    assert_eq!(
        SemanticError::ParseErrorInModule { file: "m.my".to_string(), error: "boom".to_string() }.message(),
        "error[E0703] in m.my: boom"
    );
    assert_eq!(SemanticError::MapIterationRequiresTuple.code(), "E0403");
}

#[test]
fn default_options() {
    let o = CompileOptions::defaults();
    assert_eq!(o.input_path, ".");
    assert_eq!(o.output_name, "output");
    assert!(!o.check_only && !o.keep_ll && !o.print_ast);
}

#[test]
fn parse_usize_reads_back_usize_to_string() {
    for n in [0usize, 7, 10, 99, 12345, usize::MAX] {
        assert_eq!(parse_usize(&doo::text::usize_to_string(n)), Some(n));
    }
}

#[test]
fn error_code_comes_back_out_of_the_message() {
    let e = SemanticError::FunctionRedeclaration(NamedError { name: "f".to_string() });
    let msg = e.message();
    assert_eq!(
        doo::diagnostics::extract_error_code(&msg),
        Some(("error[E0101]".to_string(), "function 'f' redeclared".to_string()))
    );
    // A parse error in a module has no `]:` after its code.
    let e = SemanticError::ParseErrorInModule { file: "m.my".to_string(), error: "x".to_string() };
    assert_eq!(doo::diagnostics::extract_error_code(&e.message()), None);
}

#[test]
fn parser_entry_points() {
    let tokens = lex("[1, 2] {\"a\": 1} Map<String, Int> let x = 3; 1 + 2");
    let mut p = Parser::new(&tokens);
    assert!(matches!(p.parse_array_literal(), Ok(AstNode::ArrayLiteral(v)) if v.len() == 2));
    assert!(matches!(p.parse_map_literal(), Ok(AstNode::MapLiteral(v)) if v.len() == 1));
    assert_eq!(display_type(&p.parse_type_annotation().unwrap()), "Map<String, Int>");
    assert!(matches!(p.parse_var_decl(), Ok(AstNode::LetDecl { .. })));
    assert!(matches!(p.parse_expression(), Ok(AstNode::BinaryExpr { .. })));
    assert_eq!(p.current, tokens.len());
    let mut q = Parser::new(&tokens);
    assert!(q.parse_map_literal().is_err());
    assert_eq!(q.current, 0);
}

#[test]
fn expression_precedence_and_postfix() {
    let tokens = lex("1 + 2 * 3 == 7 && !f(x, 2)[0] || a..n");
    let mut p = Parser::new(&tokens);
    let e = p.parse_expression().unwrap();
    assert_eq!(p.current, tokens.len());
    match e {
        AstNode::BinaryExpr { left, op: TokenType::OrOr, right } => {
            match *left {
                AstNode::BinaryExpr { left: cmp, op: TokenType::AndAnd, right: not } => {
                    match *cmp {
                        AstNode::BinaryExpr { left: sum, op: TokenType::EqEq, .. } => {
                            match *sum {
                                AstNode::BinaryExpr { left: one, op: TokenType::Plus, right: prod } => {
                                    assert!(matches!(*one, AstNode::NumberLiteral(1)));
                                    assert!(matches!(*prod, AstNode::BinaryExpr { op: TokenType::Star, .. }));
                                },
                                _ => panic!("sum"),
                            }
                        },
                        _ => panic!("comparison"),
                    }
                    match *not {
                        AstNode::UnaryExpr { op: TokenType::Bang, expr } => {
                            match *expr {
                                AstNode::ElementAccess { array, .. } => {
                                    assert!(matches!(*array, AstNode::FunctionCall { ref args, .. } if args.len() == 2));
                                },
                                _ => panic!("index"),
                            }
                        },
                        _ => panic!("not"),
                    }
                },
                _ => panic!("and"),
            }
            assert!(matches!(*right, AstNode::BinaryExpr { op: TokenType::RangeExc, .. }));
        },
        _ => panic!("or"),
    }
}

#[test]
fn expression_errors_leave_cursor() {
    let tokens = lex("(1, 2");
    let mut p = Parser::new(&tokens);
    assert!(p.parse_expression().is_err());
    assert_eq!(p.current, 0);
    let tokens = lex("99999999999999999999");
    let mut p = Parser::new(&tokens);
    assert!(p.parse_expression().is_err());
}

#[test]
fn statements_parse_to_their_nodes() {
    let tokens = lex("import a::b::C; x += 2; enum E { A, B(Int) } struct P { x: Int y: Int } pub fn f(a: Int, b) -> Int { return a; }");
    let mut p = Parser::new(&tokens);
    match p.parse_statement().unwrap() {
        AstNode::Import { path, symbol } => {
            assert_eq!(path, vec!["a".to_string(), "b".to_string()]);
            assert_eq!(symbol, Some("C".to_string()));
        },
        _ => panic!("import"),
    }
    match p.parse_statement().unwrap() {
        AstNode::Assignment { value, .. } => {
            assert!(matches!(*value, AstNode::BinaryExpr { op: TokenType::Plus, .. }));
        },
        _ => panic!("compound assignment"),
    }
    match p.parse_statement().unwrap() {
        AstNode::EnumDecl { name, variants } => {
            assert_eq!(name, "E");
            assert_eq!(variants.len(), 2);
            assert!(variants[0].1.is_none());
            assert!(matches!(variants[1].1, Some(TypeNode::Int)));
        },
        _ => panic!("enum"),
    }
    match p.parse_statement().unwrap() {
        AstNode::StructDecl { fields, .. } => assert_eq!(fields.len(), 2),
        _ => panic!("struct"),
    }
    match p.parse_statement().unwrap() {
        AstNode::FunctionDecl { name, visibility, params, return_type, body } => {
            assert_eq!(name, "f");
            assert_eq!(visibility, "Public");
            assert_eq!(params.len(), 2);
            assert!(params[1].1.is_none());
            assert!(matches!(return_type, Some(TypeNode::Int)));
            assert_eq!(body.len(), 1);
        },
        _ => panic!("function"),
    }
    assert_eq!(p.current, tokens.len());
}

#[test]
fn recovery_keeps_statements_that_parse() {
    let tokens = lex("let x = 1; let = ; let y = 2;");
    let (stmts, diags) = parse_with_recovery(&tokens, &"m.my".to_string());
    assert_eq!(stmts.len(), 2);
    assert_eq!(diags.len(), 1);
}

#[test]
fn import_of_missing_module_names_it() {
    let mut a = SemanticAnalyzer::new(None);
    let r = a.import_module(&vec!["a".to_string(), "b".to_string()], &Some("C".to_string()));
    assert!(matches!(r, Err(SemanticError::ModuleNotFound(ref t)) if t == "a::b::C"));
    let r = a.import_module(&vec!["m".to_string()], &None);
    assert!(matches!(r, Err(SemanticError::ModuleNotFound(ref t)) if t == "m"));
}

#[test]
fn recovery_agrees_with_whole_parse() {
    let tokens = lex("let x = 1; fn main() { print(x); } x = x + 1;");
    let (stmts, diags) = parse_with_recovery(&tokens, &"m.my".to_string());
    let mut p = Parser::new(&tokens);
    match p.parse_program().unwrap() {
        AstNode::Program(v) => assert_eq!(v.len(), stmts.len()),
        _ => panic!("program"),
    }
    assert!(diags.is_empty());
}
