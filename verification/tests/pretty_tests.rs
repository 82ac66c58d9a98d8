use r_python::ast::{Expression, Function, Statement, Type};
use r_python::pretty::pretty;

fn var(n: &str) -> Box<Expression> {
    Box::new(Expression::Var(n.to_string()))
}

#[test]
fn test_precedence_add_mul() {
    let expr = Expression::Mul(Box::new(Expression::Add(var("a"), var("b"))), var("c"));
    assert_eq!(pretty(80, &expr.to_doc()), "(a + b) * c");
}

#[test]
fn test_precedence_relational_and() {
    let expr = Expression::And(
        Box::new(Expression::GT(var("a"), var("b"))),
        Box::new(Expression::LT(var("c"), var("d"))),
    );
    assert_eq!(pretty(80, &expr.to_doc()), "a > b and c < d");
}

#[test]
fn test_list_layout() {
    let list = Expression::ListValue(vec![
        Expression::CString("item longo".to_string()),
        Expression::CString("outro item longo".to_string()),
    ]);
    let doc = list.to_doc();
    assert_eq!(pretty(100, &doc), "[ \"item longo\", \"outro item longo\" ]");
    let narrow_expected = "[\n    \"item longo\",\n    \"outro item longo\"\n]";
    assert_eq!(pretty(20, &doc), narrow_expected);
}

#[test]
fn test_precedence_sub_nested() {
    let expr = Expression::Sub(var("a"), Box::new(Expression::Sub(var("b"), var("c"))));
    assert_eq!(pretty(80, &expr.to_doc()), "a - (b - c)");
}

#[test]
fn test_precedence_div_nested() {
    let expr = Expression::Div(var("a"), Box::new(Expression::Div(var("b"), var("c"))));
    assert_eq!(pretty(80, &expr.to_doc()), "a / (b / c)");
}

#[test]
fn test_is_error_and_propagate_and_is_nothing() {
    let expr = Expression::IsError(Box::new(Expression::Propagate(Box::new(
        Expression::IsNothing(var("x")),
    ))));
    assert_eq!(pretty(80, &expr.to_doc()), "is_error(is_nothing(x)?)");
}

#[test]
fn test_block_formatting() {
    let block = Statement::Block(vec![
        Statement::VarDeclaration("x".to_string(), Box::new(Expression::CInt(1))),
        Statement::Assignment("y".to_string(), Box::new(Expression::CInt(2))),
    ]);
    let expected = ":\n    var x = 1;\n    y = 2;\nend";
    assert_eq!(pretty(80, &block.to_doc()), expected);
}

#[test]
fn test_nested_structure_formatting() {
    let while_stmt = Statement::While(
        var("cond"),
        Box::new(Statement::Block(vec![Statement::IfThenElse(
            var("a"),
            Box::new(Statement::Block(vec![Statement::Assignment(
                "x".to_string(),
                Box::new(Expression::CInt(1)),
            )])),
            None,
        )])),
    );
    let expected_while = "while cond :\n    if a :\n        x = 1;\n    end\nend";
    assert_eq!(pretty(80, &while_stmt.to_doc()), expected_while);
}

#[test]
fn test_assert_variants_and_type_declaration() {
    let stmt = Statement::Sequence(
        Box::new(Statement::AssertTrue(
            var("flag"),
            Box::new(Expression::CString("ok".into())),
        )),
        Box::new(Statement::AssertFalse(
            var("flag"),
            Box::new(Expression::CString("fail".into())),
        )),
    );
    let printed = pretty(120, &stmt.to_doc());
    assert!(printed.contains("assert_true(flag, \"ok\");"));
    assert!(printed.contains("assert_false(flag, \"fail\");"));

    let constructors = vec![
        ("Some".to_string(), vec![Type::TInteger]),
        ("None".to_string(), vec![]),
    ];
    let td = Statement::TypeDeclaration("Opt".into(), constructors);
    let td_printed = pretty(120, &td.to_doc());
    assert!(td_printed.starts_with("type Opt:"));
    assert!(td_printed.contains("| Some Int"));
    assert!(td_printed.contains("| None"));
}

#[test]
fn test_testdef_and_modtestdef() {
    let func = Function {
        name: "f".into(),
        kind: Type::TInteger,
        params: vec![],
        body: None,
    };
    let test_def = Statement::TestDef(func.clone());
    let mod_test = Statement::ModTestDef(
        "m".into(),
        Box::new(Statement::Return(Box::new(Expression::CInt(1)))),
    );
    let t1 = pretty(80, &test_def.to_doc());
    assert!(t1.starts_with("test def f"));
    let t2 = pretty(80, &mod_test.to_doc());
    assert!(t2.starts_with("modtest m "));
}

#[test]
fn type_declaration_lists_constructors_by_name() {
    let constructors = vec![
        ("Some".to_string(), vec![Type::TInteger, Type::TList(Box::new(Type::TString))]),
        ("None".to_string(), vec![]),
    ];
    let td = Statement::TypeDeclaration("Opt".into(), constructors);
    assert_eq!(
        pretty(120, &td.to_doc()),
        "type Opt:\n    | None\n    | Some Int [String]\nend"
    );
}

#[test]
fn function_parameters_break_when_too_long() {
    let func = Function {
        name: "add".into(),
        kind: Type::TInteger,
        params: vec![
            r_python::ast::FormalArgument::new("a".to_string(), Type::TInteger),
            r_python::ast::FormalArgument::new("b".to_string(), Type::TInteger),
        ],
        body: Some(Box::new(Statement::Return(Box::new(Expression::Add(var("a"), var("b")))))),
    };
    assert_eq!(pretty(80, &func.to_doc()), "def add( a: Int, b: Int ) -> Int return a + b;");
    assert_eq!(
        pretty(10, &func.to_doc()),
        "def add(\n    a: Int,\n    b: Int\n) -> Int return a + b;"
    );
}

#[test]
fn constructor_and_call_documents() {
    let call = Expression::FuncCall(
        "f".to_string(),
        vec![Expression::CInt(-3), Expression::CReal("2.5".to_string())],
    );
    assert_eq!(pretty(80, &call.to_doc()), "f(-3, 2.5)");
    let ctor = Expression::Not(Box::new(Expression::Constructor(
        "Pair".to_string(),
        vec![Box::new(Expression::CTrue), Box::new(Expression::CNothing)],
    )));
    assert_eq!(pretty(80, &ctor.to_doc()), "not Pair True Nothing");
    let nested = Expression::Unwrap(Box::new(Expression::Add(var("a"), var("b"))));
    assert_eq!(pretty(80, &nested.to_doc()), "(a + b)!");
}

#[test]
fn any_parent_precedence_is_accepted() {
    let sum = Expression::Add(var("a"), var("b"));
    assert_eq!(pretty(80, &sum.to_doc_inner(100)), "(a + b)");
    assert_eq!(pretty(80, &sum.to_doc_inner(0)), "a + b");
    let leaf = Expression::Var("x".to_string());
    assert_eq!(pretty(80, &leaf.to_doc_inner(usize::MAX)), "x");
}
