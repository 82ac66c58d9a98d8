use r_python::ast::{Expression, FormalArgument, FuncSignature, Function, Statement, Type};
use r_python::environment::Environment;
use r_python::type_checker::{check_expr, check_stmt, get_iterable_element_type};

fn num(i: i32) -> Box<Expression> {
    Box::new(Expression::CInt(i))
}

fn var(n: &str) -> Box<Expression> {
    Box::new(Expression::Var(n.to_string()))
}

fn text(s: &str) -> Box<Expression> {
    Box::new(Expression::CString(s.to_string()))
}

fn declared(name: &str, value: Expression) -> Environment<Type> {
    let env: Environment<Type> = Environment::new();
    check_stmt(Statement::VarDeclaration(name.to_string(), Box::new(value)), &env).unwrap()
}

fn sum_test(name: &str, kind: Type) -> Statement {
    Statement::TestDef(Function {
        name: name.to_string(),
        kind,
        params: vec![],
        body: Some(Box::new(Statement::Block(vec![
            Statement::VarDeclaration("a".to_string(), num(10)),
            Statement::VarDeclaration("b".to_string(), num(5)),
            Statement::AssertEQ(
                Box::new(Expression::Add(var("a"), var("b"))),
                num(15),
                text("A soma deveria ser 15"),
            ),
        ]))),
    })
}

#[test]
fn check_assignment() {
    let env = declared("a", Expression::CTrue);
    let assignment = Statement::Assignment("a".to_string(), Box::new(Expression::CTrue));
    match check_stmt(assignment, &env) {
        Ok(_) => assert!(true),
        Err(s) => assert!(false, "{}", s),
    }
}

#[test]
fn check_assignment_error2() {
    let env = declared("a", Expression::CTrue);
    let assignment1 = Statement::Assignment("a".to_string(), Box::new(Expression::CTrue));
    let assignment2 = Statement::Assignment("a".to_string(), num(1));
    let program = Statement::Sequence(Box::new(assignment1), Box::new(assignment2));
    assert!(matches!(check_stmt(program, &env), Err(_)));
}

#[test]
fn check_if_then_else_error() {
    let env: Environment<Type> = Environment::new();
    let stmt = Statement::IfThenElse(
        num(1),
        Box::new(Statement::Assignment("a".to_string(), num(1))),
        Some(Box::new(Statement::Assignment(
            "b".to_string(),
            Box::new(Expression::CReal("2.0".to_string())),
        ))),
    );
    assert!(matches!(check_stmt(stmt, &env), Err(_)));
}

#[test]
fn check_while_error() {
    let env: Environment<Type> = Environment::new();
    let assignment1 = Statement::Assignment("a".to_string(), num(3));
    let assignment2 = Statement::Assignment("b".to_string(), num(0));
    let stmt = Statement::While(
        num(1),
        Box::new(Statement::Assignment(
            "b".to_string(),
            Box::new(Expression::Add(var("b"), num(1))),
        )),
    );
    let program = Statement::Sequence(
        Box::new(assignment1),
        Box::new(Statement::Sequence(Box::new(assignment2), Box::new(stmt))),
    );
    assert!(matches!(check_stmt(program, &env), Err(_)));
}

#[test]
fn test_if_else_consistent_types() {
    let env = declared("x", Expression::CInt(0));
    let stmt = Statement::IfThenElse(
        Box::new(Expression::CTrue),
        Box::new(Statement::Assignment("x".to_string(), num(1))),
        Some(Box::new(Statement::Assignment("x".to_string(), num(2)))),
    );
    assert!(check_stmt(stmt, &env).is_ok());
}

#[test]
fn test_if_else_inconsistent_types() {
    let env: Environment<Type> = Environment::new();
    let stmt = Statement::IfThenElse(
        Box::new(Expression::CTrue),
        Box::new(Statement::Assignment("x".to_string(), num(1))),
        Some(Box::new(Statement::Assignment("x".to_string(), text("hello")))),
    );
    assert!(check_stmt(stmt, &env).is_err());
}

#[test]
fn test_if_else_partial_definition() {
    let env = declared("x", Expression::CInt(0));
    let stmt = Statement::Sequence(
        Box::new(Statement::IfThenElse(
            Box::new(Expression::CTrue),
            Box::new(Statement::Assignment("x".to_string(), num(1))),
            None,
        )),
        Box::new(Statement::Assignment("x".to_string(), num(2))),
    );
    assert!(check_stmt(stmt, &env).is_ok());
}

#[test]
fn test_variable_assignment() {
    let env = declared("x", Expression::CInt(0));
    let stmt = Statement::Assignment("x".to_string(), num(42));
    let new_env = check_stmt(stmt, &env).unwrap();
    assert_eq!(new_env.lookup(&"x".to_string()), Some((true, Type::TInteger)));
}

#[test]
fn test_variable_reassignment_same_type() {
    let mut env: Environment<Type> = Environment::new();
    env.map_variable("x".to_string(), true, Type::TInteger);
    let stmt = Statement::Assignment("x".to_string(), num(100));
    assert!(check_stmt(stmt, &env).is_ok());
}

#[test]
fn test_variable_reassignment_different_type() {
    let mut env: Environment<Type> = Environment::new();
    env.map_variable("x".to_string(), true, Type::TInteger);
    let stmt = Statement::Assignment("x".to_string(), text("hello"));
    assert!(check_stmt(stmt, &env).is_err());
}

#[test]
fn statement_type_checker_test_function_scoping() {
    let mut env: Environment<i32> = Environment::new();
    let global_func = Function {
        name: "global".to_string(),
        kind: Type::TVoid,
        params: Vec::new(),
        body: None,
    };
    let _local_func = Function {
        name: "local".to_string(),
        kind: Type::TVoid,
        params: Vec::new(),
        body: None,
    };
    env.map_function(global_func.clone());
    assert!(env.lookup_function_by_name(&"global".to_string()).is_some());
}

#[test]
fn test_for_valid_integer_list() {
    let mut env: Environment<Type> = Environment::new();
    env.map_variable("sum".to_string(), true, Type::TInteger);
    let stmt = Statement::For(
        "x".to_string(),
        Box::new(Expression::ListValue(vec![
            Expression::CInt(1),
            Expression::CInt(2),
            Expression::CInt(3),
        ])),
        Box::new(Statement::Assignment(
            "sum".to_string(),
            Box::new(Expression::Add(var("sum"), var("x"))),
        )),
    );
    assert!(check_stmt(stmt, &env).is_ok());
}

#[test]
fn test_for_mixed_type_list() {
    let env: Environment<Type> = Environment::new();
    let stmt = Statement::For(
        "x".to_string(),
        Box::new(Expression::ListValue(vec![
            Expression::CInt(1),
            Expression::CString("hello".to_string()),
            Expression::CInt(3),
        ])),
        Box::new(Statement::Assignment("x".to_string(), num(1))),
    );
    assert!(check_stmt(stmt, &env).is_err());
}

#[test]
fn test_for_empty_list() {
    let env = declared("x", Expression::CInt(0));
    let stmt = Statement::For(
        "x".to_string(),
        Box::new(Expression::ListValue(vec![])),
        Box::new(Statement::Assignment("x".to_string(), num(1))),
    );
    assert!(check_stmt(stmt, &env).is_ok());
}

#[test]
fn test_for_iterator_variable_reassignment() {
    let env: Environment<Type> = Environment::new();
    let stmt = Statement::For(
        "x".to_string(),
        Box::new(Expression::ListValue(vec![Expression::CInt(1), Expression::CInt(2)])),
        Box::new(Statement::Assignment("x".to_string(), text("invalid"))),
    );
    assert!(check_stmt(stmt, &env).is_err());
}

#[test]
fn test_for_nested_loops() {
    let env = declared("sum", Expression::CInt(0));
    let stmt = Statement::For(
        "i".to_string(),
        Box::new(Expression::ListValue(vec![Expression::CInt(1), Expression::CInt(2)])),
        Box::new(Statement::For(
            "j".to_string(),
            Box::new(Expression::ListValue(vec![Expression::CInt(3), Expression::CInt(4)])),
            Box::new(Statement::Assignment(
                "sum".to_string(),
                Box::new(Expression::Add(var("i"), var("j"))),
            )),
        )),
    );
    assert!(check_stmt(stmt, &env).is_ok());
}

#[test]
fn test_for_variable_scope() {
    let mut env: Environment<Type> = Environment::new();
    env.map_variable("x".to_string(), true, Type::TString);
    let stmt = Statement::For(
        "x".to_string(),
        Box::new(Expression::ListValue(vec![Expression::CInt(1), Expression::CInt(2)])),
        Box::new(Statement::Assignment("y".to_string(), var("x"))),
    );
    assert!(check_stmt(stmt, &env).is_err());
}

#[test]
fn test_assert_bool_ok() {
    let env: Environment<Type> = Environment::new();
    let stmt = Statement::Assert(Box::new(Expression::CTrue), text("msg"));
    assert!(check_stmt(stmt, &env).is_ok());
}

#[test]
fn test_assert_bool_error() {
    let env: Environment<Type> = Environment::new();
    let stmt = Statement::Assert(num(1), text("msg"));
    assert!(check_stmt(stmt, &env).is_err());
}

#[test]
fn test_assert_true_ok() {
    let env: Environment<Type> = Environment::new();
    let stmt = Statement::AssertTrue(Box::new(Expression::CTrue), text("ok"));
    assert!(check_stmt(stmt, &env).is_ok());
}

#[test]
fn test_assert_false_ok() {
    let env: Environment<Type> = Environment::new();
    let stmt = Statement::AssertFalse(Box::new(Expression::CFalse), text("false"));
    assert!(check_stmt(stmt, &env).is_ok());
}

#[test]
fn test_assert_eq_same_type() {
    let env: Environment<Type> = Environment::new();
    let stmt = Statement::AssertEQ(num(1), num(2), text("eq"));
    assert!(check_stmt(stmt, &env).is_ok());
}

#[test]
fn test_assert_eq_mismatch_type() {
    let env: Environment<Type> = Environment::new();
    let stmt = Statement::AssertEQ(num(1), text("x"), text("eq"));
    assert!(check_stmt(stmt, &env).is_err());
}

#[test]
fn test_assert_neq_same_type() {
    let env: Environment<Type> = Environment::new();
    let stmt = Statement::AssertNEQ(num(1), num(2), text("neq"));
    assert!(check_stmt(stmt, &env).is_ok());
}

#[test]
fn test_assert_neq_mismatch_type() {
    let env: Environment<Type> = Environment::new();
    let stmt = Statement::AssertNEQ(Box::new(Expression::CTrue), text("x"), text("neq"));
    assert!(check_stmt(stmt, &env).is_err());
}

#[test]
fn test_assert_error_msg_not_string() {
    let env: Environment<Type> = Environment::new();
    let stmt = Statement::Assert(Box::new(Expression::CTrue), Box::new(Expression::CTrue));
    assert!(check_stmt(stmt, &env).is_err());
}

#[test]
fn test_assert_true_error_msg_not_string() {
    let env: Environment<Type> = Environment::new();
    let stmt = Statement::AssertTrue(Box::new(Expression::CTrue), Box::new(Expression::CTrue));
    assert!(check_stmt(stmt, &env).is_err());
}

#[test]
fn test_assert_false_error_msg_not_string() {
    let env: Environment<Type> = Environment::new();
    let stmt = Statement::AssertFalse(Box::new(Expression::CFalse), Box::new(Expression::CTrue));
    assert!(check_stmt(stmt, &env).is_err());
}

#[test]
fn test_assert_eq_error_msg_not_string() {
    let env: Environment<Type> = Environment::new();
    let stmt = Statement::AssertEQ(
        Box::new(Expression::CTrue),
        Box::new(Expression::CTrue),
        Box::new(Expression::CTrue),
    );
    assert!(check_stmt(stmt, &env).is_err());
}

#[test]
fn test_assert_neq_error_msg_not_string() {
    let env: Environment<Type> = Environment::new();
    let stmt = Statement::AssertNEQ(
        Box::new(Expression::CTrue),
        Box::new(Expression::CFalse),
        Box::new(Expression::CTrue),
    );
    assert!(check_stmt(stmt, &env).is_err());
}

#[test]
fn test_assert_error_msg_string() {
    let env: Environment<Type> = Environment::new();
    let stmt = Statement::Assert(Box::new(Expression::CTrue), text("assert"));
    assert!(check_stmt(stmt, &env).is_ok());
}

#[test]
fn test_assert_true_error_msg_string() {
    let env: Environment<Type> = Environment::new();
    let stmt = Statement::AssertTrue(Box::new(Expression::CTrue), text("asserttrue"));
    assert!(check_stmt(stmt, &env).is_ok());
}

#[test]
fn test_assert_false_error_msg_string() {
    let env: Environment<Type> = Environment::new();
    let stmt = Statement::AssertFalse(Box::new(Expression::CFalse), text("assertfalse"));
    assert!(check_stmt(stmt, &env).is_ok());
}

#[test]
fn test_assert_eq_error_msg_string() {
    let env: Environment<Type> = Environment::new();
    let stmt = Statement::AssertEQ(Box::new(Expression::CTrue), Box::new(Expression::CTrue), text("eq"));
    assert!(check_stmt(stmt, &env).is_ok());
}

#[test]
fn test_assert_neq_error_msg_string() {
    let env: Environment<Type> = Environment::new();
    let stmt = Statement::AssertNEQ(Box::new(Expression::CTrue), Box::new(Expression::CFalse), text("neq"));
    assert!(check_stmt(stmt, &env).is_ok());
}

#[test]
fn test_check_valid_test_function() {
    let env: Environment<Type> = Environment::new();
    let stmt = sum_test("valid_function", Type::TVoid);
    assert!(check_stmt(stmt, &env).is_ok());
}

#[test]
fn test_check_test_function_with_params() {
    let env: Environment<Type> = Environment::new();
    let stmt = Statement::TestDef(Function {
        name: "invalid_function".to_string(),
        kind: Type::TVoid,
        params: vec![FormalArgument::new("param".to_string(), Type::TString)],
        body: None,
    });
    assert!(check_stmt(stmt.clone(), &env).is_err());
    let error = match check_stmt(stmt, &env) {
        Ok(_) => "Expected an error, but got Ok".to_string(),
        Err(error) => error,
    };
    assert_eq!(error, "[Type Error] Test functions must not have parameters.".to_string());
}

#[test]
fn test_check_test_function_with_non_void_return() {
    let env: Environment<Type> = Environment::new();
    let stmt = sum_test("invalid_function", Type::TInteger);
    assert!(check_stmt(stmt.clone(), &env).is_err());
    let error = match check_stmt(stmt, &env) {
        Ok(_) => "Expected an error, but got Ok".to_string(),
        Err(error) => error,
    };
    assert_eq!(error, "[Type Error] Test functions must return void.".to_string());
}

#[test]
fn test_check_duplicate_test_function() {
    let mut env: Environment<Type> = Environment::new();
    let first_func = sum_test("duplicate", Type::TVoid);
    env = check_stmt(first_func, &env).unwrap();
    let stmt = sum_test("duplicate", Type::TVoid);
    assert!(check_stmt(stmt.clone(), &env).is_err());
    let error = match check_stmt(stmt, &env) {
        Ok(_) => "Expected an error, but got Ok".to_string(),
        Err(error) => error,
    };
    assert_eq!(error, "[Type Error] Test function 'duplicate' already exists.".to_string());
}

#[test]
fn declaration_binds_the_expression_type() {
    let env = declared("x", Expression::Add(num(1), Box::new(Expression::CReal("2.5".to_string()))));
    assert_eq!(env.lookup(&"x".to_string()), Some((true, Type::TReal)));
    let again = check_stmt(Statement::ValDeclaration("x".to_string(), num(1)), &env);
    assert_eq!(again.err(), Some("[Type Error] variable '\"x\"' already declared".to_string()));
}

#[test]
fn constant_cannot_be_reassigned() {
    let env: Environment<Type> = Environment::new();
    let env = check_stmt(Statement::ValDeclaration("c".to_string(), num(1)), &env).unwrap();
    assert_eq!(env.lookup(&"c".to_string()), Some((false, Type::TInteger)));
    let r = check_stmt(Statement::Assignment("c".to_string(), num(2)), &env);
    assert_eq!(
        r.err(),
        Some("[Type Error] cannot reassign '\"c\"' variable, since it was declared as a constant value.".to_string())
    );
}

#[test]
fn mismatched_assignment_reports_both_types() {
    let mut env: Environment<Type> = Environment::new();
    env.map_variable("x".to_string(), true, Type::TInteger);
    let r = check_stmt(Statement::Assignment("x".to_string(), text("s")), &env);
    assert_eq!(r.err(), Some("[Type Error] expected 'TInteger', found 'TString'.".to_string()));
}

#[test]
fn branches_with_different_types_are_refused() {
    let mut env: Environment<Type> = Environment::new();
    env.map_variable("x".to_string(), true, Type::TAny);
    let stmt = Statement::IfThenElse(
        Box::new(Expression::CTrue),
        Box::new(Statement::Assignment("x".to_string(), num(1))),
        Some(Box::new(Statement::Assignment("x".to_string(), text("s")))),
    );
    let r = check_stmt(stmt, &env);
    assert_eq!(
        r.err(),
        Some("[Type Error] Variable 'x' has inconsistent types in different branches: 'TInteger' and 'TString'".to_string())
    );
}

#[test]
fn function_definition_is_recorded() {
    let env: Environment<Type> = Environment::new();
    let func = Function {
        name: "add".to_string(),
        kind: Type::TInteger,
        params: vec![
            FormalArgument::new("a".to_string(), Type::TInteger),
            FormalArgument::new("b".to_string(), Type::TInteger),
        ],
        body: Some(Box::new(Statement::Return(Box::new(Expression::Add(var("a"), var("b")))))),
    };
    let env = check_stmt(Statement::FuncDef(func), &env).unwrap();
    assert!(env.lookup_function_by_name(&"add".to_string()).is_some());
    assert_eq!(env.lookup(&"a".to_string()), None);
    let call = Expression::FuncCall("add".to_string(), vec![Expression::CInt(1), Expression::CInt(2)]);
    assert_eq!(check_expr(&call, &env), Ok(Type::TInteger));
    let bad = Expression::FuncCall("add".to_string(), vec![Expression::CInt(1)]);
    assert_eq!(
        check_expr(&bad, &env),
        Err("[Type Error] wrong arguments in a call to 'add'.".to_string())
    );
}

#[test]
fn expression_types() {
    let env: Environment<Type> = Environment::new();
    assert_eq!(
        check_expr(&Expression::COk(num(1)), &env),
        Ok(Type::TResult(Box::new(Type::TInteger), Box::new(Type::TAny)))
    );
    assert_eq!(
        check_expr(&Expression::Unwrap(Box::new(Expression::CJust(text("a")))), &env),
        Ok(Type::TString)
    );
    assert_eq!(
        check_expr(&Expression::Not(num(1)), &env),
        Err("[Type Error] expecting boolean type values.".to_string())
    );
    assert_eq!(
        check_expr(&Expression::LT(num(1), text("a")), &env),
        Err("[Type Error] expecting numeric type values.".to_string())
    );
    assert_eq!(
        check_expr(&Expression::Var("nope".to_string()), &env),
        Err("[Name Error] variable 'nope' is not declared.".to_string())
    );
    assert_eq!(
        check_expr(&Expression::IsNothing(num(1)), &env),
        Err("[Type Error] expecting a maybe value.".to_string())
    );
}

#[test]
fn iterable_element_types() {
    assert_eq!(get_iterable_element_type(&Type::TList(Box::new(Type::TBool))), Ok(Type::TBool));
    assert_eq!(get_iterable_element_type(&Type::TString), Ok(Type::TString));
    assert_eq!(
        get_iterable_element_type(&Type::TTuple(vec![Type::TInteger, Type::TInteger])),
        Ok(Type::TInteger)
    );
    assert_eq!(
        get_iterable_element_type(&Type::TTuple(vec![])),
        Err("[Type Error] Cannot iterate over empty tuple type".to_string())
    );
    assert_eq!(
        get_iterable_element_type(&Type::TTuple(vec![Type::TInteger, Type::TBool])),
        Err("[Type Error] Can only iterate over homogeneous tuples (all elements same type)".to_string())
    );
    assert_eq!(
        get_iterable_element_type(&Type::TInteger),
        Err("[Type Error] Type TInteger is not iterable".to_string())
    );
}

#[test]
fn type_declaration_is_recorded_by_the_checker() {
    let env: Environment<Type> = Environment::new();
    let decl = Statement::TypeDeclaration(
        "Maybe2".to_string(),
        vec![("Some2".to_string(), vec![Type::TBool]), ("None2".to_string(), vec![])],
    );
    let env = check_stmt(decl, &env).unwrap();
    let cons = env.lookup_adt(&"Maybe2".to_string()).unwrap();
    assert_eq!(cons.len(), 2);
    assert_eq!(cons[0].0, "Some2");
    assert_eq!(cons[0].1, vec![Type::TBool]);
}

#[test]
fn checking_a_statement_keeps_the_current_function() {
    let mut env: Environment<Type> = Environment::new();
    let sig = FuncSignature { name: "g".to_string(), argument_types: vec![] };
    env.set_current_func(&sig);
    let stmt = Statement::Sequence(
        Box::new(Statement::VarDeclaration("a".to_string(), num(1))),
        Box::new(Statement::Assignment("a".to_string(), num(2))),
    );
    let after = check_stmt(stmt, &env).unwrap();
    assert_eq!(after.get_current_func(), sig);
}
