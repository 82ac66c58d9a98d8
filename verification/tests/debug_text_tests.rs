use r_python::ast::{Expression, FormalArgument, Function, Statement, Type};

fn num(i: i32) -> Box<Expression> {
    Box::new(Expression::CInt(i))
}

fn var(n: &str) -> Box<Expression> {
    Box::new(Expression::Var(n.to_string()))
}

#[test]
fn type_debug_text_matches_derived_debug() {
    let types = vec![
        Type::TInteger,
        Type::TBool,
        Type::TReal,
        Type::TString,
        Type::TVoid,
        Type::TAny,
        Type::TList(Box::new(Type::TInteger)),
        Type::TTuple(vec![Type::TInteger, Type::TString]),
        Type::TTuple(vec![]),
        Type::TMaybe(Box::new(Type::TBool)),
        Type::TResult(Box::new(Type::TInteger), Box::new(Type::TString)),
        Type::TUnion(vec![Type::TInteger, Type::TReal]),
        Type::TFunction(Box::new(Type::TBool), vec![Type::TInteger, Type::TList(Box::new(Type::TAny))]),
    ];
    for t in types {
        assert_eq!(t.debug_text(), format!("{:?}", t));
    }
}

#[test]
fn algebraic_type_debug_text_prints_constructors_as_a_map() {
    let t = Type::TAlgebraicData(
        "Shape".to_string(),
        vec![
            ("Circle".to_string(), vec![Type::TReal]),
            ("Rect".to_string(), vec![Type::TReal, Type::TReal]),
        ],
    );
    assert_eq!(t.debug_text(), "TAlgebraicData(\"Shape\", {\"Circle\": [TReal], \"Rect\": [TReal, TReal]})");
    let empty = Type::TAlgebraicData("Unit".to_string(), vec![]);
    assert_eq!(empty.debug_text(), "TAlgebraicData(\"Unit\", {})");
}

#[test]
fn expression_debug_text_matches_derived_debug() {
    let lambda = Function {
        name: "f".to_string(),
        kind: Type::TInteger,
        params: vec![FormalArgument { argument_name: "x".to_string(), argument_type: Type::TInteger }],
        body: Some(Box::new(Statement::Return(Box::new(Expression::Add(var("x"), num(1)))))),
    };
    let exprs = vec![
        Expression::CTrue,
        Expression::CFalse,
        Expression::CInt(-42),
        Expression::CReal("2.5".to_string()),
        Expression::CString("say \"hi\"\n".to_string()),
        Expression::CVoid,
        Expression::CNothing,
        Expression::Var("x".to_string()),
        Expression::FuncCall("g".to_string(), vec![Expression::CInt(1), Expression::CTrue]),
        Expression::Sub(num(1), num(2)),
        Expression::Mul(num(3), var("y")),
        Expression::Div(num(4), num(2)),
        Expression::And(Box::new(Expression::CTrue), Box::new(Expression::CFalse)),
        Expression::Or(Box::new(Expression::CTrue), Box::new(Expression::CFalse)),
        Expression::Not(Box::new(Expression::CTrue)),
        Expression::EQ(num(1), num(1)),
        Expression::NEQ(num(1), num(2)),
        Expression::GT(num(1), num(2)),
        Expression::LT(num(1), num(2)),
        Expression::GTE(num(1), num(2)),
        Expression::LTE(num(1), num(2)),
        Expression::COk(num(1)),
        Expression::CErr(Box::new(Expression::CString("bad".to_string()))),
        Expression::CJust(num(5)),
        Expression::Unwrap(var("m")),
        Expression::IsError(var("r")),
        Expression::IsNothing(var("m")),
        Expression::Propagate(var("r")),
        Expression::Lambda(lambda),
        Expression::ListValue(vec![Expression::CInt(1), Expression::CInt(2)]),
        Expression::Tuple(vec![]),
        Expression::Constructor("Circle".to_string(), vec![num(3)]),
    ];
    for e in exprs {
        assert_eq!(e.debug_text(), format!("{:?}", e));
    }
}

#[test]
fn expression_debug_text_exact_value() {
    let e = Expression::Add(num(1), Box::new(Expression::CString("a".to_string())));
    assert_eq!(e.debug_text(), "Add(CInt(1), CString(\"a\"))");
}

#[test]
fn statement_debug_text_matches_derived_debug() {
    let f = Function {
        name: "inc".to_string(),
        kind: Type::TInteger,
        params: vec![],
        body: None,
    };
    let stmts = vec![
        Statement::VarDeclaration("x".to_string(), num(1)),
        Statement::ValDeclaration("y".to_string(), num(2)),
        Statement::Assignment("x".to_string(), num(3)),
        Statement::IfThenElse(
            Box::new(Expression::CTrue),
            Box::new(Statement::Assignment("x".to_string(), num(1))),
            Some(Box::new(Statement::Assignment("x".to_string(), num(2)))),
        ),
        Statement::IfThenElse(Box::new(Expression::CFalse), Box::new(Statement::Block(vec![])), None),
        Statement::IfChain {
            branches: vec![
                (Box::new(Expression::CTrue), Box::new(Statement::Return(num(1)))),
                (Box::new(Expression::CFalse), Box::new(Statement::Return(num(2)))),
            ],
            else_branch: Some(Box::new(Statement::Return(num(3)))),
        },
        Statement::While(Box::new(Expression::CFalse), Box::new(Statement::Block(vec![]))),
        Statement::For("i".to_string(), var("xs"), Box::new(Statement::Assignment("s".to_string(), var("i")))),
        Statement::Sequence(
            Box::new(Statement::VarDeclaration("a".to_string(), num(1))),
            Box::new(Statement::Assignment("a".to_string(), num(2))),
        ),
        Statement::Assert(Box::new(Expression::CTrue), Box::new(Expression::CString("m".to_string()))),
        Statement::AssertTrue(Box::new(Expression::CTrue), Box::new(Expression::CString("m".to_string()))),
        Statement::AssertFalse(Box::new(Expression::CFalse), Box::new(Expression::CString("m".to_string()))),
        Statement::AssertEQ(num(1), num(1), Box::new(Expression::CString("eq".to_string()))),
        Statement::AssertNEQ(num(1), num(2), Box::new(Expression::CString("neq".to_string()))),
        Statement::TestDef(Function {
            name: "test_a".to_string(),
            kind: Type::TVoid,
            params: vec![],
            body: Some(Box::new(Statement::Block(vec![Statement::Return(Box::new(Expression::CVoid))]))),
        }),
        Statement::ModTestDef("m".to_string(), Box::new(Statement::Block(vec![]))),
        Statement::AssertFails("boom".to_string()),
        Statement::FuncDef(f),
        Statement::Return(num(0)),
        Statement::Match(
            var("s"),
            vec![(Expression::CInt(1), Statement::Return(num(1))), (Expression::CVoid, Statement::Block(vec![]))],
        ),
    ];
    for s in stmts {
        assert_eq!(s.debug_text(), format!("{:?}", s));
    }
}

#[test]
fn type_declaration_debug_text_prints_constructors_as_a_map() {
    let s = Statement::TypeDeclaration(
        "Maybe".to_string(),
        vec![("Just".to_string(), vec![Type::TInteger]), ("Nothing".to_string(), vec![])],
    );
    assert_eq!(s.debug_text(), "TypeDeclaration(\"Maybe\", {\"Just\": [TInteger], \"Nothing\": []})");
}
