use r_python::ast::{Expression, Function, Statement, Type};
use r_python::environment::Environment;
use r_python::ast::FuncSignature;
use r_python::interpreter::{execute, run, run_tests, Computation};

fn create_test_env() -> Environment<Expression> {
    Environment::new()
}

fn extract_env(computation: Computation) -> Environment<Expression> {
    match computation {
        Computation::Continue(env) => env,
        Computation::Return(_, env) => env,
        Computation::PropagateError(_, env) => env,
    }
}

fn num(i: i32) -> Box<Expression> {
    Box::new(Expression::CInt(i))
}

fn var(n: &str) -> Box<Expression> {
    Box::new(Expression::Var(n.to_string()))
}

fn text(s: &str) -> Box<Expression> {
    Box::new(Expression::CString(s.to_string()))
}

fn error_text(stmt: Statement, env: &Environment<Expression>) -> String {
    match execute(stmt, env) {
        Ok(Computation::Continue(_)) => "error".to_string(),
        Ok(Computation::Return(_, _)) => "error".to_string(),
        Ok(Computation::PropagateError(_, _)) => "error".to_string(),
        Err(e) => e.to_string(),
    }
}

fn test_function(name: &str, kind: Type, body: Vec<Statement>) -> Statement {
    Statement::TestDef(Function {
        name: name.to_string(),
        kind,
        params: Vec::new(),
        body: Some(Box::new(Statement::Block(body))),
    })
}

#[test]
fn test_var_declaration_and_assignment() {
    let env = create_test_env();
    let var_decl = Statement::VarDeclaration("x".to_string(), num(42));
    let env_with_var = extract_env(execute(var_decl, &env).unwrap());
    let x_value = env_with_var.lookup(&"x".to_string());
    assert!(x_value.is_some());
    let (is_mutable, x_expr) = x_value.unwrap();
    assert_eq!(x_expr, Expression::CInt(42));
    assert!(is_mutable);

    let assignment = Statement::Assignment("x".to_string(), num(100));
    let result_env = execute(assignment, &env_with_var);
    assert!(result_env.is_ok());
    let final_env = extract_env(result_env.unwrap());
    let final_x_value = final_env.lookup(&"x".to_string());
    assert!(final_x_value.is_some());
    let (is_still_mutable, final_x_expr) = final_x_value.unwrap();
    assert_eq!(final_x_expr, Expression::CInt(100));
    assert!(is_still_mutable);
}

#[test]
fn test_val_declaration_immutable() {
    let env = create_test_env();
    let val_decl = Statement::ValDeclaration("message".to_string(), text("Hello, World!"));
    let result_env = execute(val_decl, &env);
    assert!(result_env.is_ok());
    let final_env = extract_env(result_env.unwrap());
    let message_value = final_env.lookup(&"message".to_string());
    assert!(message_value.is_some());
    let (is_mutable, message_expr) = message_value.unwrap();
    assert_eq!(message_expr, Expression::CString("Hello, World!".to_string()));
    assert!(!is_mutable);
}

#[test]
fn test_var_declaration_with_reassignment() {
    let env = create_test_env();
    let var_decl = Statement::VarDeclaration("flag".to_string(), Box::new(Expression::CTrue));
    let env_with_var = extract_env(execute(var_decl, &env).unwrap());
    let flag_value = env_with_var.lookup(&"flag".to_string());
    assert!(flag_value.is_some());
    let (is_mutable, flag_expr) = flag_value.unwrap();
    assert_eq!(flag_expr, Expression::CTrue);
    assert!(is_mutable);

    let assignment_false = Statement::Assignment("flag".to_string(), Box::new(Expression::CFalse));
    let result_env = execute(assignment_false, &env_with_var);
    assert!(result_env.is_ok());
    let final_env = extract_env(result_env.unwrap());
    let flag_value2 = final_env.lookup(&"flag".to_string());
    assert!(flag_value2.is_some());
    let (is_still_mutable, flag_expr2) = flag_value2.unwrap();
    assert_eq!(flag_expr2, Expression::CFalse);
    assert!(is_still_mutable);
}

#[test]
fn test_val_declaration_real_number() {
    let env = create_test_env();
    let val_decl = Statement::ValDeclaration(
        "pi".to_string(),
        Box::new(Expression::CReal("3.14159".to_string())),
    );
    let result_env = execute(val_decl, &env);
    assert!(result_env.is_ok());
    let final_env = extract_env(result_env.unwrap());
    let pi_value = final_env.lookup(&"pi".to_string());
    assert!(pi_value.is_some());
    let (is_mutable, pi_expr) = pi_value.unwrap();
    assert_eq!(pi_expr, Expression::CReal("3.14159".to_string()));
    assert!(!is_mutable);
}

#[test]
fn test_var_declaration_with_arithmetic_expression() {
    let env = create_test_env();
    let var_decl = Statement::VarDeclaration(
        "result".to_string(),
        Box::new(Expression::Add(num(10), num(5))),
    );
    let result_env = execute(var_decl, &env);
    assert!(result_env.is_ok());
    let final_env = extract_env(result_env.unwrap());
    let result_value = final_env.lookup(&"result".to_string());
    assert!(result_value.is_some());
    let (is_mutable, result_expr) = result_value.unwrap();
    assert_eq!(result_expr, Expression::CInt(15));
    assert!(is_mutable);
}

#[test]
fn test_val_declaration_with_complex_expression() {
    let env = create_test_env();
    let val_decl = Statement::ValDeclaration(
        "result".to_string(),
        Box::new(Expression::Mul(
            Box::new(Expression::Add(num(2), num(3))),
            Box::new(Expression::Sub(num(4), num(1))),
        )),
    );
    let result_env = execute(val_decl, &env);
    assert!(result_env.is_ok());
    let final_env = extract_env(result_env.unwrap());
    let result_value = final_env.lookup(&"result".to_string());
    assert!(result_value.is_some());
    let (is_mutable, result_expr) = result_value.unwrap();
    assert_eq!(result_expr, Expression::CInt(15));
    assert!(!is_mutable);
}

#[test]
fn test_assignment_using_existing_variable() {
    let env = create_test_env();
    let var_decl = Statement::VarDeclaration("x".to_string(), num(10));
    let env_with_x = extract_env(execute(var_decl, &env).unwrap());
    let var_decl_y = Statement::VarDeclaration(
        "y".to_string(),
        Box::new(Expression::Add(var("x"), num(5))),
    );
    let result_env = execute(var_decl_y, &env_with_x);
    assert!(result_env.is_ok());
    let final_env = extract_env(result_env.unwrap());
    let y_value = final_env.lookup(&"y".to_string());
    assert!(y_value.is_some());
    let (is_mutable, y_expr) = y_value.unwrap();
    assert_eq!(y_expr, Expression::CInt(15));
    assert!(is_mutable);
}

#[test]
fn test_variable_reassignment() {
    let env = create_test_env();
    let var_decl = Statement::VarDeclaration("counter".to_string(), num(0));
    let env_with_counter = extract_env(execute(var_decl, &env).unwrap());
    let counter_value = env_with_counter.lookup(&"counter".to_string());
    assert!(counter_value.is_some());
    let (is_mutable, counter_expr) = counter_value.unwrap();
    assert_eq!(counter_expr, Expression::CInt(0));
    assert!(is_mutable);

    let reassignment = Statement::Assignment(
        "counter".to_string(),
        Box::new(Expression::Add(var("counter"), num(1))),
    );
    let result_env = execute(reassignment, &env_with_counter);
    assert!(result_env.is_ok());
    let final_env = extract_env(result_env.unwrap());
    let final_counter_value = final_env.lookup(&"counter".to_string());
    assert!(final_counter_value.is_some());
    let (is_still_mutable, final_counter_expr) = final_counter_value.unwrap();
    assert_eq!(final_counter_expr, Expression::CInt(1));
    assert!(is_still_mutable);
}

#[test]
fn test_multiple_declarations_sequence() {
    let env = create_test_env();
    let program = Statement::Sequence(
        Box::new(Statement::VarDeclaration("a".to_string(), num(5))),
        Box::new(Statement::Sequence(
            Box::new(Statement::ValDeclaration("b".to_string(), num(10))),
            Box::new(Statement::VarDeclaration(
                "c".to_string(),
                Box::new(Expression::Add(var("a"), var("b"))),
            )),
        )),
    );
    let result_env = execute(program, &env);
    assert!(result_env.is_ok());
    let final_env = extract_env(result_env.unwrap());

    let (a_mutable, a_expr) = final_env.lookup(&"a".to_string()).unwrap();
    assert_eq!(a_expr, Expression::CInt(5));
    assert!(a_mutable);
    let (b_mutable, b_expr) = final_env.lookup(&"b".to_string()).unwrap();
    assert_eq!(b_expr, Expression::CInt(10));
    assert!(!b_mutable);
    let (c_mutable, c_expr) = final_env.lookup(&"c".to_string()).unwrap();
    assert_eq!(c_expr, Expression::CInt(15));
    assert!(c_mutable);
}

#[test]
fn test_declarations_in_block() {
    let env = create_test_env();
    let block = Statement::Block(vec![
        Statement::VarDeclaration("local_var".to_string(), num(100)),
        Statement::ValDeclaration(
            "result".to_string(),
            Box::new(Expression::Mul(var("local_var"), num(2))),
        ),
    ]);
    let result_env = execute(block, &env);
    assert!(result_env.is_ok());
    let final_env = extract_env(result_env.unwrap());

    let local_var_value = final_env.lookup(&"local_var".to_string());
    assert!(local_var_value.is_some());
    let (local_var_mutable, local_var_expr) = local_var_value.unwrap();
    assert_eq!(local_var_expr, Expression::CInt(100));
    assert!(local_var_mutable);

    let result_value = final_env.lookup(&"result".to_string());
    assert!(result_value.is_some());
    let (result_mutable, result_expr) = result_value.unwrap();
    assert_eq!(result_expr, Expression::CInt(200));
    assert!(!result_mutable);
}

#[test]
fn test_for_loop_sum_integers() {
    let env = create_test_env();
    let int_list = Expression::ListValue(vec![
        Expression::CInt(1),
        Expression::CInt(2),
        Expression::CInt(3),
        Expression::CInt(4),
        Expression::CInt(5),
    ]);
    let loop_body = Statement::Assignment(
        "sum".to_string(),
        Box::new(Expression::Add(var("sum"), var("i"))),
    );
    let for_stmt = Statement::For("i".to_string(), Box::new(int_list), Box::new(loop_body));
    let program = Statement::Block(vec![
        Statement::Assignment("sum".to_string(), num(0)),
        for_stmt,
    ]);
    let result_env = execute(program, &env);
    assert!(result_env.is_ok());
    let final_env = extract_env(result_env.unwrap());
    let sum_value = final_env.lookup(&"sum".to_string());
    assert!(sum_value.is_some());
    let (_, sum_expr) = sum_value.unwrap();
    assert_eq!(sum_expr, Expression::CInt(15));
}

#[test]
fn test_for_loop_empty_list() {
    let env = create_test_env();
    let empty_list = Expression::ListValue(vec![]);
    let loop_body = Statement::Assignment(
        "count".to_string(),
        Box::new(Expression::Add(var("count"), num(1))),
    );
    let for_stmt = Statement::For("i".to_string(), Box::new(empty_list), Box::new(loop_body));
    let program = Statement::Block(vec![
        Statement::Assignment("count".to_string(), num(0)),
        for_stmt,
    ]);
    let result_env = execute(program, &env);
    assert!(result_env.is_ok());
    let final_env = extract_env(result_env.unwrap());
    let count_value = final_env.lookup(&"count".to_string());
    assert!(count_value.is_some());
    let (_, count_expr) = count_value.unwrap();
    assert_eq!(count_expr, Expression::CInt(0));
}

#[test]
fn test_for_loop_single_element() {
    let env = create_test_env();
    let single_list = Expression::ListValue(vec![Expression::CInt(42)]);
    let loop_body = Statement::Assignment("result".to_string(), var("i"));
    let for_stmt = Statement::For("i".to_string(), Box::new(single_list), Box::new(loop_body));
    let result_env = execute(for_stmt, &env);
    assert!(result_env.is_ok());
    let final_env = extract_env(result_env.unwrap());
    let result_value = final_env.lookup(&"result".to_string());
    assert!(result_value.is_some());
    let (_, result_expr) = result_value.unwrap();
    assert_eq!(result_expr, Expression::CInt(42));
    let i_value = final_env.lookup(&"i".to_string());
    assert!(i_value.is_none());
}

#[test]
fn test_for_loop_with_expressions() {
    let env = create_test_env();
    let expr_list = Expression::ListValue(vec![
        Expression::Add(num(1), num(1)),
        Expression::Mul(num(2), num(3)),
        Expression::Sub(num(10), num(2)),
    ]);
    let loop_body = Statement::Assignment(
        "product".to_string(),
        Box::new(Expression::Mul(var("product"), var("i"))),
    );
    let for_stmt = Statement::For("i".to_string(), Box::new(expr_list), Box::new(loop_body));
    let program = Statement::Block(vec![
        Statement::Assignment("product".to_string(), num(1)),
        for_stmt,
    ]);
    let result_env = execute(program, &env);
    assert!(result_env.is_ok());
    let final_env = extract_env(result_env.unwrap());
    let product_value = final_env.lookup(&"product".to_string());
    assert!(product_value.is_some());
    let (_, product_expr) = product_value.unwrap();
    assert_eq!(product_expr, Expression::CInt(96));
}

#[test]
fn test_for_loop_nested_blocks() {
    let env = create_test_env();
    let int_list = Expression::ListValue(vec![
        Expression::CInt(1),
        Expression::CInt(2),
        Expression::CInt(3),
    ]);
    let loop_body = Statement::Block(vec![
        Statement::Assignment("temp".to_string(), Box::new(Expression::Mul(var("i"), num(2)))),
        Statement::Assignment(
            "sum".to_string(),
            Box::new(Expression::Add(var("sum"), var("temp"))),
        ),
    ]);
    let for_stmt = Statement::For("i".to_string(), Box::new(int_list), Box::new(loop_body));
    let program = Statement::Block(vec![
        Statement::Assignment("sum".to_string(), num(0)),
        for_stmt,
    ]);
    let result_env = execute(program, &env);
    assert!(result_env.is_ok());
    let final_env = extract_env(result_env.unwrap());
    let sum_value = final_env.lookup(&"sum".to_string());
    assert!(sum_value.is_some());
    let (_, sum_expr) = sum_value.unwrap();
    assert_eq!(sum_expr, Expression::CInt(12));
}

#[test]
fn test_execute_assert_true() {
    let env = create_test_env();
    let stmt = Statement::Assert(Box::new(Expression::CTrue), text("ok"));
    let result = execute(stmt, &env);
    assert!(result.is_ok(), "Assert with true condition should succeed");
}

#[test]
fn test_execute_assert_false() {
    let env = create_test_env();
    let stmt = Statement::Assert(Box::new(Expression::CFalse), text("fail msg"));
    let result = execute(stmt.clone(), &env);
    assert!(result.is_err(), "Assert with false condition should fail");
    assert_eq!(error_text(stmt, &env), "fail msg".to_string());
}

#[test]
fn test_execute_asserteq_true() {
    let env = create_test_env();
    let stmt = Statement::AssertEQ(num(1), num(1), text("should not fail"));
    let result = execute(stmt, &env);
    assert!(result.is_ok(), "AssertEQ with equal values should succeed");
}

#[test]
fn test_execute_asserteq_false() {
    let env = create_test_env();
    let stmt = Statement::AssertEQ(num(1), num(2), text("eq fail"));
    let result = execute(stmt.clone(), &env);
    assert!(result.is_err(), "AssertEQ with different values should fail");
    assert_eq!(error_text(stmt, &env), "eq fail".to_string());
}

#[test]
fn test_execute_assertneq_true() {
    let env = create_test_env();
    let stmt = Statement::AssertNEQ(num(1), num(2), text("should not fail"));
    let result = execute(stmt, &env);
    assert!(result.is_ok(), "AssertNEQ with different values should succeed");
}

#[test]
fn test_execute_assertneq_false() {
    let env = create_test_env();
    let stmt = Statement::AssertNEQ(num(3), num(3), text("neq fail"));
    let result = execute(stmt.clone(), &env);
    assert!(result.is_err(), "AssertNEQ with equal values should fail");
    assert_eq!(error_text(stmt, &env), "neq fail".to_string());
}

#[test]
fn test_execute_asserttrue_true() {
    let env = create_test_env();
    let stmt = Statement::AssertTrue(Box::new(Expression::CTrue), text("ok"));
    let result = execute(stmt, &env);
    assert!(result.is_ok(), "AssertTrue with true condition should succeed");
}

#[test]
fn test_execute_asserttrue_false() {
    let env = create_test_env();
    let stmt = Statement::AssertTrue(Box::new(Expression::CFalse), text("asserttrue fail"));
    let result = execute(stmt.clone(), &env);
    assert!(result.is_err(), "AssertTrue with false condition should fail");
    assert_eq!(error_text(stmt, &env), "asserttrue fail".to_string());
}

#[test]
fn test_execute_assertfalse_false() {
    let env = create_test_env();
    let stmt = Statement::AssertFalse(Box::new(Expression::CFalse), text("ok"));
    let result = execute(stmt, &env);
    assert!(result.is_ok(), "AssertFalse with false condition should succeed");
}

#[test]
fn test_execute_assertfalse_true() {
    let env = create_test_env();
    let stmt = Statement::AssertFalse(Box::new(Expression::CTrue), text("assertfalse fail"));
    let result = execute(stmt.clone(), &env);
    assert!(result.is_err(), "AssertFalse with true condition should fail");
    assert_eq!(error_text(stmt, &env), "assertfalse fail".to_string());
}

#[test]
fn test_execute_testdef() {
    let env = create_test_env();
    let test_def = test_function(
        "test_example",
        Type::TVoid,
        vec![Statement::Assert(Box::new(Expression::CTrue), text("Test passed"))],
    );
    let programa = Statement::Block(vec![test_def.clone()]);
    match execute(programa, &env) {
        Ok(Computation::Continue(new_env)) => {
            assert!(new_env.lookup_test(&"test_example".to_string()).is_some());
        }
        _ => panic!("Test definition execution failed"),
    }
}

#[test]
fn test_run_tests() {
    let test_def = test_function(
        "test_example",
        Type::TVoid,
        vec![Statement::Assert(Box::new(Expression::CTrue), text("Test passed"))],
    );
    let programa = Statement::Block(vec![test_def.clone()]);
    match run_tests(&programa) {
        Ok(resultados) => {
            assert_eq!(resultados.len(), 1);
            assert_eq!(resultados[0].name, "test_example");
            assert!(resultados[0].result);
            assert!(resultados[0].error.is_none());
        }
        _ => panic!("Test execution failed"),
    }
}

#[test]
fn test_run_tests_scope() {
    let test_def = test_function(
        "test_example",
        Type::TVoid,
        vec![Statement::Assert(Box::new(Expression::CTrue), text("Test passed"))],
    );
    let teste_def2 = test_function(
        "test_example2",
        Type::TVoid,
        vec![Statement::Assert(Box::new(Expression::CTrue), text("Test 2 passed"))],
    );
    let assign1 = Statement::Assignment("x".to_string(), num(10));
    let assign2 = Statement::Assignment("y".to_string(), num(20));
    let ifelse = Statement::IfThenElse(
        Box::new(Expression::CTrue),
        Box::new(test_def),
        Some(Box::new(teste_def2)),
    );
    let programa = Statement::Block(vec![assign1, assign2, ifelse]);
    let resultado_final = match run_tests(&programa) {
        Ok(resultados) => resultados,
        Err(e) => panic!("Test execution failed: {}", e),
    };
    assert_eq!(resultado_final.len(), 1);
    assert_eq!(resultado_final[0].name, "test_example");
    assert_eq!(resultado_final[0].result, true);
}

#[test]
fn test_run_tests_with_assert_fail() {
    let teste1 = test_function(
        "test_fail",
        Type::TVoid,
        vec![Statement::Assert(Box::new(Expression::CFalse), text("This test should fail"))],
    );
    let programa = Statement::Block(vec![teste1]);
    match run_tests(&programa) {
        Ok(resultados) => {
            assert_eq!(resultados.len(), 1);
            assert_eq!(resultados[0].name, "test_fail");
            assert!(!resultados[0].result);
            assert_eq!(resultados[0].error, Some("This test should fail".to_string()));
        }
        Err(e) => panic!("Test execution failed: {}", e),
    }
}

#[test]
fn test_run_tests_with_second_assert_fail() {
    let teste1 = test_function(
        "test_fail",
        Type::TVoid,
        vec![
            Statement::Assert(Box::new(Expression::CTrue), text("This test should pass")),
            Statement::Assert(Box::new(Expression::CFalse), text("This second test should fail")),
            Statement::Assert(
                Box::new(Expression::CTrue),
                text("This test shouldn't run, but should pass"),
            ),
        ],
    );
    let programa = Statement::Block(vec![teste1]);
    match run_tests(&programa) {
        Ok(resultados) => {
            assert_eq!(resultados.len(), 1);
            assert_eq!(resultados[0].name, "test_fail");
            assert!(!resultados[0].result);
            assert_eq!(resultados[0].error, Some("This second test should fail".to_string()));
        }
        Err(e) => panic!("Test execution failed: {}", e),
    }
}

#[test]
fn test_run_tests_without_asserts() {
    let teste = test_function(
        "test_no_assert",
        Type::TVoid,
        vec![Statement::VarDeclaration("x".to_string(), num(42))],
    );
    let programa = Statement::Block(vec![teste]);
    match run_tests(&programa) {
        Ok(resultados) => {
            assert_eq!(resultados.len(), 1);
            assert_eq!(resultados[0].name, "test_no_assert");
            assert!(resultados[0].result);
            assert!(resultados[0].error.is_none());
        }
        Err(e) => panic!("Test execution failed: {}", e),
    }
}

#[test]
fn test_run_tests_with_multiple_tests() {
    let teste1 = test_function(
        "test_one",
        Type::TVoid,
        vec![Statement::Assert(Box::new(Expression::CTrue), text("Test one passed"))],
    );
    let teste2 = test_function(
        "test_two",
        Type::TVoid,
        vec![Statement::Assert(Box::new(Expression::CFalse), text("Test two failed"))],
    );
    let teste3 = test_function(
        "test_three",
        Type::TVoid,
        vec![Statement::Assert(Box::new(Expression::CTrue), text("Test three passed"))],
    );
    let programa = Statement::Block(vec![teste1, teste2, teste3]);
    match run_tests(&programa) {
        Ok(resultados) => {
            assert_eq!(resultados.len(), 3);
            assert_eq!(resultados[0].name, "test_one");
            assert!(resultados[0].result);
            assert!(resultados[0].error.is_none());
            assert_eq!(resultados[1].name, "test_two");
            assert!(!resultados[1].result);
            assert_eq!(resultados[1].error, Some("Test two failed".to_string()));
            assert_eq!(resultados[2].name, "test_three");
            assert!(resultados[2].result);
            assert!(resultados[2].error.is_none());
        }
        Err(e) => panic!("Test execution failed: {}", e),
    }
}

#[test]
fn test_test_scope_isolation() {
    let test_one = test_function(
        "test_one",
        Type::TBool,
        vec![
            Statement::VarDeclaration("x".to_string(), num(1)),
            Statement::AssertEQ(var("x"), num(1), text("x should be 1")),
        ],
    );
    let test_two = test_function(
        "test_two",
        Type::TBool,
        vec![Statement::AssertFalse(var("x"), text("x should not be visible"))],
    );
    let stmt = Statement::Block(vec![test_one, test_two]);
    let results = run_tests(&stmt).unwrap();
    assert_eq!(results.len(), 2);
    let r1 = &results[0];
    let r2 = &results[1];
    assert_eq!(r1.name, "test_one");
    assert!(r1.result);
    assert_eq!(r2.name, "test_two");
    assert!(!r2.result);
    assert_eq!(r2.error, Some("Variable 'x' not found".to_string()));
}

#[test]
fn tests_do_not_see_each_others_changes() {
    let first = test_function(
        "first",
        Type::TVoid,
        vec![
            Statement::Assignment("x".to_string(), num(2)),
            Statement::AssertEQ(var("x"), num(2), text("x should be 2 here")),
        ],
    );
    let second = test_function(
        "second",
        Type::TVoid,
        vec![Statement::AssertEQ(var("x"), num(1), text("x should still be 1"))],
    );
    let program = Statement::Block(vec![
        Statement::VarDeclaration("x".to_string(), num(1)),
        first,
        second,
    ]);
    let results = run_tests(&program).unwrap();
    assert_eq!(results.len(), 2);
    assert_eq!(results[0].name, "first");
    assert!(results[0].result);
    assert_eq!(results[1].name, "second");
    assert!(results[1].result, "{:?}", results[1].error);
}

#[test]
fn error_propagation_stops_the_block() {
    let env = create_test_env();
    let program = Statement::Block(vec![
        Statement::ValDeclaration(
            "y".to_string(),
            Box::new(Expression::Propagate(Box::new(Expression::CErr(text("boom"))))),
        ),
        Statement::ValDeclaration("z".to_string(), num(1)),
    ]);
    match execute(program, &env) {
        Ok(Computation::PropagateError(e, after)) => {
            assert_eq!(e, Expression::CString("boom".to_string()));
            assert_eq!(after.lookup(&"z".to_string()), None);
            assert_eq!(after.lookup(&"y".to_string()), None);
        }
        _ => panic!("the error should have been propagated"),
    }
    let unwrap_ok = Statement::ValDeclaration(
        "y".to_string(),
        Box::new(Expression::Propagate(Box::new(Expression::COk(num(5))))),
    );
    let env = extract_env(execute(unwrap_ok, &env).unwrap());
    assert_eq!(env.lookup(&"y".to_string()), Some((false, Expression::CInt(5))));
}

#[test]
fn type_declaration_is_recorded() {
    let env = create_test_env();
    let decl = Statement::TypeDeclaration(
        "Shape".to_string(),
        vec![
            ("Circle".to_string(), vec![Type::TInteger]),
            ("Rectangle".to_string(), vec![Type::TInteger, Type::TInteger]),
        ],
    );
    let env = extract_env(execute(decl, &env).unwrap());
    let cons = env.lookup_adt(&"Shape".to_string()).unwrap();
    assert_eq!(cons.len(), 2);
    assert_eq!(cons[0].0, "Circle");
    assert_eq!(cons[1].1, vec![Type::TInteger, Type::TInteger]);
    assert!(env.lookup_adt(&"Other".to_string()).is_none());
}

#[test]
fn loop_variable_binding_is_restored() {
    let mut env = create_test_env();
    env.map_variable("x".to_string(), true, Expression::CInt(5));
    env.map_variable("s".to_string(), true, Expression::CInt(0));
    let body = Statement::Block(vec![Statement::Assignment(
        "s".to_string(),
        Box::new(Expression::Add(var("s"), var("x"))),
    )]);
    let items = Box::new(Expression::ListValue(vec![Expression::CInt(1), Expression::CInt(2)]));
    let after = extract_env(execute(Statement::For("x".to_string(), items.clone(), Box::new(body.clone())), &env).unwrap());
    assert_eq!(after.lookup(&"x".to_string()), Some((true, Expression::CInt(5))));
    assert_eq!(after.lookup(&"s".to_string()), Some((true, Expression::CInt(3))));
    let fresh = extract_env(execute(Statement::For("y".to_string(), items, Box::new(Statement::Block(vec![]))), &env).unwrap());
    assert_eq!(fresh.lookup(&"y".to_string()), None);
}

#[test]
fn running_a_statement_keeps_the_current_function() {
    let mut env: Environment<Expression> = Environment::new();
    let sig = FuncSignature { name: "f".to_string(), argument_types: vec![Type::TInteger] };
    env.set_current_func(&sig);
    let program = Statement::Sequence(
        Box::new(Statement::VarDeclaration("x".to_string(), Box::new(Expression::CInt(1)))),
        Box::new(Statement::While(
            Box::new(Expression::LT(Box::new(Expression::Var("x".to_string())), Box::new(Expression::CInt(3)))),
            Box::new(Statement::Assignment(
                "x".to_string(),
                Box::new(Expression::Add(Box::new(Expression::Var("x".to_string())), Box::new(Expression::CInt(1)))),
            )),
        )),
    );
    let after = run(program, &env).unwrap();
    assert_eq!(after.get_current_func(), sig);
}

#[test]
fn unbound_loop_variable_is_unbound_after_the_loop() {
    let mut env = create_test_env();
    env.map_variable("s".to_string(), true, Expression::CInt(0));
    env.push();
    let body = Statement::Sequence(
        Box::new(Statement::VarDeclaration("w".to_string(), var("z"))),
        Box::new(Statement::Assignment("s".to_string(), Box::new(Expression::Add(var("s"), var("w"))))),
    );
    let items = Box::new(Expression::ListValue(vec![Expression::CInt(4), Expression::CInt(6)]));
    let after = extract_env(execute(Statement::For("z".to_string(), items, Box::new(body)), &env).unwrap());
    assert_eq!(after.lookup(&"z".to_string()), None);
    assert_eq!(after.lookup(&"s".to_string()), Some((true, Expression::CInt(10))));
    assert_eq!(after.lookup(&"w".to_string()), Some((true, Expression::CInt(6))));
}
