use doo::analyzer::SemanticAnalyzer;
use doo::parser::ast::AstNode;
use doo::lexar::lexer::lex;
use doo::mir::builder::MirBuilder;
use doo::mir::MirInstr;
use doo::parser::Parser;

fn build_mir(input: &str) -> Result<MirBuilder, String> {
    let tokens = lex(input);
    let mut parser = Parser::new(&tokens);
    let result = parser.parse_program();

    match result {
        Ok(mut ast) => {
            let mut analyzer = SemanticAnalyzer::new(None);
            if let AstNode::Program(ref mut nodes) = ast {
                analyzer
                    .analyze_program(nodes)
                    .map_err(|e| format!("{:?}", e))?;

                let mut mir_builder = MirBuilder::new();
                mir_builder.build_program(nodes);
                mir_builder.finalize();
                Ok(mir_builder)
            } else {
                Err("Not a program".to_string())
            }
        }
        Err(e) => Err(format!("Parse error: {:?}", e)),
    }
}

// --- VALID TESTS ---
#[test]
fn test_simple_function_mir() {
    let input = r#"
        fn main() {
            let x = 42;
        }
    "#;
    let result = build_mir(input);
    assert!(result.is_ok());
    let mir = result.unwrap();
    assert!(mir.program.functions.iter().any(|f| f.name == "main"));
}

#[test]
fn test_function_with_params_mir() {
    let input = r#"
        fn add(x: Int, y: Int) -> Int {
            return x + y;
        }
        fn main() { }
    "#;
    let result = build_mir(input);
    assert!(result.is_ok());
    let mir = result.unwrap();
    assert!(mir.program.functions.iter().any(|f| f.name == "add"));
    let add_fn = mir
        .program
        .functions
        .iter()
        .find(|f| f.name == "add")
        .unwrap();
    assert_eq!(add_fn.params.len(), 2);
}

#[test]
fn test_variable_assignment_mir() {
    let input = r#"
        fn main() {
            let x = 10;
            let y = x;
        }
    "#;
    let result = build_mir(input);
    assert!(result.is_ok());
}

#[test]
fn test_binary_operation_mir() {
    let input = r#"
        fn main() {
            let x = 5 + 3;
            let y = x * 2;
        }
    "#;
    let result = build_mir(input);
    assert!(result.is_ok());
}

#[test]
fn test_if_statement_mir() {
    let input = r#"
        fn main() {
            if true {
                let x = 1;
            } else {
                let y = 2;
            }
        }
    "#;
    let result = build_mir(input);
    assert!(result.is_ok());
    let mir = result.unwrap();
    let main_fn = mir
        .program
        .functions
        .iter()
        .find(|f| f.name == "main")
        .unwrap();
    // Should have multiple blocks for if/else branches
    assert!(main_fn.blocks.len() > 1);
}

#[test]
fn test_for_loop_mir() {
    let input = r#"
        fn main() {
            for i in 0..10 {
                print(i);
            }
        }
    "#;
    let result = build_mir(input);
    assert!(result.is_ok());
    let mir = result.unwrap();
    let main_fn = mir
        .program
        .functions
        .iter()
        .find(|f| f.name == "main")
        .unwrap();
    // Loop should create multiple blocks
    assert!(main_fn.blocks.len() > 1);
}

#[test]
fn test_function_call_mir() {
    let input = r#"
        fn getValue() -> Int {
            return 42;
        }
        fn main() {
            let x = getValue();
        }
    "#;
    let result = build_mir(input);
    assert!(result.is_ok());
}

#[test]
fn test_array_literal_mir() {
    let input = r#"
        fn main() {
            let arr = [1, 2, 3];
        }
    "#;
    let result = build_mir(input);
    assert!(result.is_ok());
}

#[test]
fn test_map_literal_mir() {
    let input = r#"
        fn main() {
            let m = {"key": 42};
        }
    "#;
    let result = build_mir(input);
    assert!(result.is_ok());
}

#[test]
fn test_return_statement_mir() {
    let input = r#"
        fn getValue() -> Int {
            return 42;
        }
        fn main() { }
    "#;
    let result = build_mir(input);
    assert!(result.is_ok());
}

#[test]
fn test_comparison_mir() {
    let input = r#"
        fn main() {
            let b = 5 > 3;
        }
    "#;
    let result = build_mir(input);
    assert!(result.is_ok());
}

#[test]
fn test_nested_blocks_mir() {
    let input = r#"
        fn main() {
            if true {
                if false {
                    let x = 1;
                }
            }
        }
    "#;
    let result = build_mir(input);
    assert!(result.is_ok());
}

#[test]
fn test_multiple_functions_mir() {
    let input = r#"
        fn foo() -> Int { return 1; }
        fn bar() -> Int { return 2; }
        fn main() {
            let x = foo();
            let y = bar();
        }
    "#;
    let result = build_mir(input);
    assert!(result.is_ok());
    let mir = result.unwrap();
    assert!(mir.program.functions.iter().any(|f| f.name == "foo"));
    assert!(mir.program.functions.iter().any(|f| f.name == "bar"));
    assert!(mir.program.functions.iter().any(|f| f.name == "main"));
}

// Edge case: nested for loops
#[test]
fn test_nested_for_loops_mir() {
    let input = r#"
        fn main() {
            for i in 0..3 {
                for j in 0..2 {
                    print(i + j);
                }
            }
        }
    "#;
    let result = build_mir(input);
    assert!(result.is_ok());
}

// Edge case: break/continue in nested loops
#[test]
fn test_break_continue_nested_loops_mir() {
    let input = r#"
        fn main() {
            for i in 0..5 {
                for j in 0..5 {
                    if j == 2 { break; }
                    if i == 3 { continue; }
                }
            }
        }
    "#;
    let result = build_mir(input);
    assert!(result.is_ok());
}

// --- INVALID TESTS ---
#[test]
fn test_immutable_assignment_mir() {
    let input = "fn main() { let x = 5; x = 10; }";
    let result = build_mir(input);
    assert!(
        result.is_err(),
        "Should fail on assignment to immutable variable"
    );
}

#[test]
fn test_if_condition_not_bool_mir() {
    let input = "fn main() { if 42 { print(1); } }";
    let result = build_mir(input);
    assert!(result.is_err(), "Should fail if condition is not bool");
}

fn lowered_main(input: &str) -> MirBuilder {
    let tokens = lex(input);
    let mut parser = Parser::new(&tokens);
    let ast = parser.parse_program().unwrap();
    let mut builder = MirBuilder::new();
    if let AstNode::Program(nodes) = ast {
        builder.build_program(&nodes);
    }
    builder
}

#[test]
fn if_lowering_block_order() {
    let b = lowered_main("fn main() { let x = 1; if x < 2 { print(x); } else { print(0); } }");
    let f = &b.program.functions[0];
    let i = f
        .blocks
        .iter()
        .position(|bl| matches!(bl.terminator, Some(MirInstr::CondJump { .. })))
        .unwrap();
    match &f.blocks[i].terminator {
        Some(MirInstr::CondJump { then_block, else_block, .. }) => {
            assert_eq!(f.blocks[i + 1].label, *then_block);
            assert_eq!(f.blocks[i + 2].label, *else_block);
        },
        _ => unreachable!(),
    }
    assert!(f.blocks[i + 1].terminator.is_some());
    assert!(f.blocks[i + 2].terminator.is_some());
}

#[test]
fn range_loop_block_shape() {
    let b = lowered_main("fn main() { for i in 0..3 { print(i); } }");
    let f = &b.program.functions[0];
    let h = f
        .blocks
        .iter()
        .position(|bl| matches!(bl.terminator, Some(MirInstr::CondJump { .. })))
        .unwrap();
    let header = &f.blocks[h];
    let inc = &f.blocks[h + 2];
    let end = &f.blocks[h + 3];
    assert_eq!(inc.instrs.len(), 3);
    assert!(matches!(&inc.instrs[0], MirInstr::ConstInt { value: 1, .. }));
    assert!(matches!(&inc.instrs[2], MirInstr::Assign { name, mutable: true, .. } if name == "i"));
    assert!(matches!(&inc.terminator, Some(MirInstr::Jump { target }) if *target == header.label));
    assert!(end.instrs.is_empty());
    assert!(matches!(&end.terminator, Some(MirInstr::Jump { .. })));
    match &header.terminator {
        Some(MirInstr::CondJump { else_block, .. }) => assert_eq!(*else_block, end.label),
        _ => unreachable!(),
    }
    let entry = &f.blocks[h - 1];
    assert!(matches!(&entry.terminator, Some(MirInstr::Jump { target }) if *target == header.label));
    assert!(matches!(entry.instrs.last(), Some(MirInstr::Assign { name, mutable: false, .. }) if name == "i_end"));
}

#[test]
fn tuple_let_binds_each_extracted_element() {
    let b = lowered_main("fn main() { let p = (1, 2); let (a, b) = p; }");
    let instrs = &b.program.functions[0].blocks[0].instrs;
    for (index, name) in [(0usize, "a"), (1usize, "b")] {
        let at = instrs
            .iter()
            .position(|i| matches!(i, MirInstr::TupleExtract { source, index: k, .. } if source == "p" && *k == index))
            .unwrap();
        let extracted = match &instrs[at] {
            MirInstr::TupleExtract { name, .. } => name.clone(),
            _ => unreachable!(),
        };
        assert!(matches!(&instrs[at + 1], MirInstr::Assign { name: n, value, mutable: false } if n == name && *value == extracted));
    }
}

#[test]
fn if_without_else_then_block_jumps_after_if() {
    let b = lowered_main("fn main() { if true { } }");
    let f = &b.program.functions[0];
    let i = f
        .blocks
        .iter()
        .position(|bl| matches!(bl.terminator, Some(MirInstr::CondJump { .. })))
        .unwrap();
    assert!(matches!(&f.blocks[i].instrs[..], [MirInstr::ConstBool { value: true, .. }]));
    let (then_label, after_label) = match &f.blocks[i].terminator {
        Some(MirInstr::CondJump { then_block, else_block, .. }) => (then_block.clone(), else_block.clone()),
        _ => unreachable!(),
    };
    let then_mir = &f.blocks[i + 1];
    assert_eq!(then_mir.label, then_label);
    assert!(then_mir.instrs.is_empty());
    assert!(matches!(&then_mir.terminator, Some(MirInstr::Jump { target }) if *target == after_label));
}

#[test]
fn inclusive_range_header_compares_with_le() {
    let b = lowered_main("fn main() { for i in 0..=3 { continue; } }");
    let f = &b.program.functions[0];
    let h = f
        .blocks
        .iter()
        .position(|bl| matches!(bl.terminator, Some(MirInstr::CondJump { .. })))
        .unwrap();
    assert!(matches!(f.blocks[h].instrs.last(), Some(MirInstr::BinaryOp(op, _, x, y)) if op == "le" && x == "i" && y == "i_end"));
    let increment = f.blocks[h + 2].label.clone();
    assert!(matches!(&f.blocks[h + 1].terminator, Some(MirInstr::Jump { target }) if *target == increment));
}

#[test]
fn exclusive_range_header_compares_with_lt() {
    let b = lowered_main("fn main() { for i in 0..3 { print(i); } }");
    let f = &b.program.functions[0];
    let h = f
        .blocks
        .iter()
        .position(|bl| matches!(bl.terminator, Some(MirInstr::CondJump { .. })))
        .unwrap();
    assert!(matches!(f.blocks[h].instrs.last(), Some(MirInstr::BinaryOp(op, _, x, y)) if op == "lt" && x == "i" && y == "i_end"));
    let increment = f.blocks[h + 2].label.clone();
    assert!(matches!(&f.blocks[h + 1].terminator, Some(MirInstr::Jump { target }) if *target == increment));
}

#[test]
fn finalize_keeps_last_assignment_to_a_global() {
    let mut b = MirBuilder::new();
    b.program.globals = vec![
        MirInstr::Assign { name: "x".to_string(), value: "%1".to_string(), mutable: true },
        MirInstr::Assign { name: "x".to_string(), value: "%2".to_string(), mutable: true },
    ];
    b.finalize();
    assert_eq!(b.program.globals.len(), 1);
    assert!(matches!(&b.program.globals[0], MirInstr::Assign { name, value, mutable: true } if name == "x" && value == "%2"));
}

#[test]
fn finalize_twice_changes_nothing() {
    let mut b = lowered_main(
        "let s = \"a\"; let s = \"b\"; fn main() { let x = 1; if x < 2 { print(x); } for i in 0..2 { print(i); } }",
    );
    b.finalize();
    let once = format!("{:?}", b.program);
    b.finalize();
    assert_eq!(format!("{:?}", b.program), once);
}

#[test]
fn straight_function_body_is_one_block_ending_in_return() {
    let b = lowered_main("fn main() { let x = 1; print(x); }");
    let f = &b.program.functions[0];
    assert_eq!(f.blocks.len(), 1);
    assert_eq!(f.blocks[0].label, "Block0");
    assert!(matches!(&f.blocks[0].terminator, Some(MirInstr::Return { values }) if values.is_empty()));
    assert!(matches!(f.blocks[0].instrs.last(), Some(MirInstr::Print { .. })));
}

#[test]
fn empty_function_body_has_no_blocks() {
    let b = lowered_main("fn main() { }");
    assert!(b.program.functions[0].blocks.is_empty());
}

#[test]
fn lowered_program_keeps_straight_function_bodies() {
    let tokens = lex("fn show(a: Int, b: Int) { print(a); } fn main() { show(1, 2); }");
    let mut parser = Parser::new(&tokens);
    let ast = parser.parse_program().unwrap();
    let nodes = match ast {
        AstNode::Program(nodes) => nodes,
        _ => unreachable!(),
    };
    let p = doo::mir::check::lower_program(&nodes).unwrap();
    assert_eq!(p.functions.len(), 2);
    let show = &p.functions[0];
    assert_eq!(show.name, "show");
    assert_eq!(show.params, vec!["a".to_string(), "b".to_string()]);
    assert_eq!(show.blocks.len(), 1);
    assert!(matches!(show.blocks[0].instrs.last(), Some(MirInstr::Print { .. })));
    assert!(matches!(&show.blocks[0].terminator, Some(MirInstr::Return { values }) if values.is_empty()));
    assert_eq!(p.functions[1].name, "main");
    assert_eq!(p.functions[1].blocks.len(), 1);
}
