use r_python::lexical::only_white_space;
use r_python::ast::{Expression, FormalArgument, Function, Statement, Type};
use r_python::parser::ParseError;
use r_python::parser_stmt::{
    parse, parse_assert_statement, parse_assertfalse_statement, parse_asserteq_statement,
    parse_assertneq_statement, parse_asserttrue_statement, parse_assignment_statement, parse_block,
    parse_formal_argument, parse_function_definition_statement, parse_if_chain_statement,
    parse_return_statement, parse_test_function_definition_statement, parse_val_declaration_statement,
    parse_var_declaration_statement,
};

fn assign(n: &str, v: i32) -> Statement {
    Statement::Assignment(n.to_string(), Box::new(Expression::CInt(v)))
}

fn block1(st: Statement) -> Box<Statement> {
    Box::new(Statement::Block(vec![st]))
}

fn var(n: &str) -> Box<Expression> {
    Box::new(Expression::Var(n.to_string()))
}

#[test]
fn test_parse_assignment_statement() {
    let input = "x = 42";
    let expected = Statement::Assignment("x".to_string(), Box::new(Expression::CInt(42)));
    let parsed = parse_assignment_statement(input).unwrap().1;
    assert_eq!(parsed, expected);
}

#[test]
fn test_parse_return_statement() {
    let input = "return 42";
    let expected = Statement::Return(Box::new(Expression::CInt(42)));
    let parsed = parse_return_statement(input).unwrap().1;
    assert_eq!(parsed, expected);
}

#[test]
fn test_parse_function_definition_statement_with_keyword_spacing() {
    let input = "def fibonacci(n: Int) -> Int: return n; end;";
    let (rest, parsed) = parse_function_definition_statement(input).unwrap();

    assert_eq!(rest, ";");

    match parsed {
        Statement::FuncDef(Function { name, .. }) => {
            assert_eq!(name, "fibonacci");
        }
        other => panic!("expected function definition, got {other:?}"),
    }
}

#[test]
fn test_parse_block() {
    let input = ": x = 1; end";
    let expected = Statement::Block(vec![assign("x", 1)]);
    let (rest, parsed) = parse_block(input).unwrap();
    assert_eq!(rest, "");
    assert_eq!(parsed, expected);

    let input = ": x = 1; y = x + 1; end";
    let expected = Statement::Block(vec![
        assign("x", 1),
        Statement::Assignment(
            "y".to_string(),
            Box::new(Expression::Add(var("x"), Box::new(Expression::CInt(1)))),
        ),
    ]);
    let (rest, parsed) = parse_block(input).unwrap();
    assert_eq!(rest, "");
    assert_eq!(parsed, expected);
}

#[test]
fn test_parse_formal_argument() {
    let input = "x: Int";
    let expected = FormalArgument {
        argument_name: "x".to_string(),
        argument_type: Type::TInteger,
    };
    let parsed = parse_formal_argument(input).unwrap().1;
    assert_eq!(parsed, expected);
}

#[test]
fn test_parse_if_chain_statement() {
    let input_if_only = "if True: x = 1; end";
    let expected_if_only = Statement::IfChain {
        branches: vec![(Box::new(Expression::CTrue), block1(assign("x", 1)))],
        else_branch: None,
    };
    let (_, parsed_if_only) = parse_if_chain_statement(input_if_only).unwrap();
    assert_eq!(parsed_if_only, expected_if_only);

    let input_if_else = "if False: x = 1; end else: y = 2; end";
    let expected_if_else = Statement::IfChain {
        branches: vec![(Box::new(Expression::CFalse), block1(assign("x", 1)))],
        else_branch: Some(block1(assign("y", 2))),
    };
    let (_, parsed_if_else) = parse_if_chain_statement(input_if_else).unwrap();
    assert_eq!(parsed_if_else, expected_if_else);

    let input_if_elif_else = "if a: x = 1; end elif b: y = 2; end else: z = 3; end";
    let expected_if_elif_else = Statement::IfChain {
        branches: vec![(var("a"), block1(assign("x", 1))), (var("b"), block1(assign("y", 2)))],
        else_branch: Some(block1(assign("z", 3))),
    };
    let (_, parsed_if_elif_else) = parse_if_chain_statement(input_if_elif_else).unwrap();
    assert_eq!(parsed_if_elif_else, expected_if_elif_else);

    let input_multi_elif = "if a: x=1; end elif b: y=2; end elif c: z=3; end";
    let expected_multi_elif = Statement::IfChain {
        branches: vec![
            (var("a"), block1(assign("x", 1))),
            (var("b"), block1(assign("y", 2))),
            (var("c"), block1(assign("z", 3))),
        ],
        else_branch: None,
    };
    let (_, parsed_multi_elif) = parse_if_chain_statement(input_multi_elif).unwrap();
    assert_eq!(parsed_multi_elif, expected_multi_elif);
}

#[test]
fn test_parse_test_function_definition_statement_valid() {
    let input = "test test_example(): x = 1; end";
    let expected = Statement::TestDef(Function {
        name: "test_example".to_string(),
        kind: Type::TVoid,
        params: vec![],
        body: Some(block1(assign("x", 1))),
    });
    let parsed = parse_test_function_definition_statement(input).unwrap().1;
    assert_eq!(parsed, expected);
}

#[test]
fn test_parse_test_function_definition_statement_valid_multiple_statements() {
    let input = r#"test test_example():
                x = 1;
                y = 2;
                assert(x == 1, "x deveria ser 1");
            end"#;
    let expected = Statement::TestDef(Function {
        name: "test_example".to_string(),
        kind: Type::TVoid,
        params: vec![],
        body: Some(Box::new(Statement::Block(vec![
            assign("x", 1),
            assign("y", 2),
            Statement::Assert(
                Box::new(Expression::EQ(var("x"), Box::new(Expression::CInt(1)))),
                Box::new(Expression::CString("x deveria ser 1".to_string())),
            ),
        ]))),
    });
    let parsed = parse_test_function_definition_statement(input).unwrap().1;
    assert_eq!(parsed, expected);
}

#[test]
fn test_parse_test_function_definition_statement_with_spaces() {
    let input = "test test_spaces(   ): x = 2; end";
    let expected = Statement::TestDef(Function {
        name: "test_spaces".to_string(),
        kind: Type::TVoid,
        params: vec![],
        body: Some(block1(assign("x", 2))),
    });
    let parsed = parse_test_function_definition_statement(input).unwrap().1;
    assert_eq!(parsed, expected);
}

#[test]
fn test_parse_test_function_definition_statement_args() {
    let input = "test test_with_args(x: Int, y: Int): x = y; end";
    let parsed = parse_test_function_definition_statement(input);
    assert!(parsed.is_err(), "Funções de teste com argumentos devem ser rejeitadas");
}

#[test]
fn test_parse_test_function_definition_statement_invalid_return() {
    let input = "test test_with_invalid_return() -> Int: x = 2; end";
    let parsed = parse_test_function_definition_statement(input);
    assert!(parsed.is_err(), "Funções de teste não devem especificar tipo de retorno");
}

#[test]
fn test_parse_test_function_definition_statement_valid_return_type() {
    let input = "test test_with_valid_return() -> Boolean: x = 2; end";
    let parsed = parse_test_function_definition_statement(input);
    assert!(parsed.is_err(), "Funções de teste não devem especificar tipo de retorno");
}

#[test]
fn test_parse_assert_statement() {
    let input = "assert(1 == 2, \"expecting an error\")";
    let expected = Statement::Assert(
        Box::new(Expression::EQ(Box::new(Expression::CInt(1)), Box::new(Expression::CInt(2)))),
        Box::new(Expression::CString("expecting an error".to_string())),
    );
    let parsed = parse_assert_statement(input).unwrap().1;
    assert_eq!(parsed, expected);
}

#[test]
fn test_parse_asserteq_statement() {
    let input = "asserteq(1, 2, \"msg\")";
    let expected = Statement::AssertEQ(
        Box::new(Expression::CInt(1)),
        Box::new(Expression::CInt(2)),
        Box::new(Expression::CString("msg".to_string())),
    );
    let parsed = parse_asserteq_statement(input).unwrap().1;
    assert_eq!(parsed, expected);
}

#[test]
fn test_parse_assertneq_statement() {
    let input = "assertneq(3, 4, \"fail\")";
    let expected = Statement::AssertNEQ(
        Box::new(Expression::CInt(3)),
        Box::new(Expression::CInt(4)),
        Box::new(Expression::CString("fail".to_string())),
    );
    let parsed = parse_assertneq_statement(input).unwrap().1;
    assert_eq!(parsed, expected);
}

#[test]
fn test_parse_asserttrue_statement() {
    let input = "asserttrue(True, \"should be true\")";
    let expected = Statement::AssertTrue(
        Box::new(Expression::CTrue),
        Box::new(Expression::CString("should be true".to_string())),
    );
    let parsed = parse_asserttrue_statement(input).unwrap().1;
    assert_eq!(parsed, expected);
}

#[test]
fn test_parse_assertfalse_statement() {
    let input = "assertfalse(False, \"should be false\")";
    let expected = Statement::AssertFalse(
        Box::new(Expression::CFalse),
        Box::new(Expression::CString("should be false".to_string())),
    );
    let parsed = parse_assertfalse_statement(input).unwrap().1;
    assert_eq!(parsed, expected);
}

#[test]
fn assertion_with_wrong_arity_is_refused() {
    assert_eq!(parse_assert_statement("assert(False, False, \"should be false\")"), Err(ParseError));
    assert_eq!(parse_asserteq_statement("asserteq(1, 2, 3, \"msg\")"), Err(ParseError));
    assert_eq!(parse_asserttrue_statement("asserttrue(True)"), Err(ParseError));
}

#[test]
fn declarations_are_parsed() {
    assert_eq!(
        parse_var_declaration_statement("var x = 42"),
        Ok(("".to_string(), Statement::VarDeclaration("x".to_string(), Box::new(Expression::CInt(42)))))
    );
    assert_eq!(
        parse_val_declaration_statement("val y = True"),
        Ok(("".to_string(), Statement::ValDeclaration("y".to_string(), Box::new(Expression::CTrue))))
    );
    assert_eq!(parse_var_declaration_statement("varx = 1"), Err(ParseError));
}

#[test]
fn function_definition_keeps_its_signature() {
    let input = "def f(x: Int, y: Boolean) -> Int: return x; end";
    let expected = Statement::FuncDef(Function {
        name: "f".to_string(),
        kind: Type::TInteger,
        params: vec![
            FormalArgument::new("x".to_string(), Type::TInteger),
            FormalArgument::new("y".to_string(), Type::TBool),
        ],
        body: Some(block1(Statement::Return(var("x")))),
    });
    assert_eq!(parse_function_definition_statement(input), Ok(("".to_string(), expected)));
}

#[test]
fn program_is_a_list_of_statements() {
    let (rest, statements) = parse("  x = 1; y = 2;  ").unwrap();
    assert_eq!(rest, "");
    assert_eq!(statements, vec![assign("x", 1), assign("y", 2)]);
    let (rest, statements) = parse("").unwrap();
    assert_eq!(rest, "");
    assert!(statements.is_empty());
}

#[test]
fn only_white_space_agrees_with_trim() {
    let cases = ["", "   ", "\n\t\r ", "\u{a0}\u{2003}\u{3000}", " x ", "\u{200b}", "x", "  \n;"];
    for c in cases {
        assert_eq!(only_white_space(c), c.trim().is_empty(), "{:?}", c);
    }
    assert!(only_white_space(" \n"));
    assert!(!only_white_space(" a"));
}
