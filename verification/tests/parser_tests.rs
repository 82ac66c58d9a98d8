use r_python::ast::{Expression, Statement};
use r_python::parser::parse_expression;
use r_python::parser_stmt::{parse, parse_statement};

fn b(e: Expression) -> Box<Expression> {
    Box::new(e)
}

#[test]
fn test_literals() {
    let cases = vec![
        ("42", Expression::CInt(42)),
        ("3.14", Expression::CReal("3.14".to_string())),
        ("\"hello\"", Expression::CString("hello".to_string())),
        ("True", Expression::CTrue),
        ("False", Expression::CFalse),
    ];

    for (input, expected) in cases {
        let (rest, result) = parse_expression(input).unwrap();
        assert_eq!(rest, "");
        assert_eq!(result, expected);
    }
}

#[test]
fn test_arithmetic_operations() {
    let cases = vec![
        ("1 + 2", Expression::Add(b(Expression::CInt(1)), b(Expression::CInt(2)))),
        ("3 * 4", Expression::Mul(b(Expression::CInt(3)), b(Expression::CInt(4)))),
        (
            "2 + 3 * 4",
            Expression::Add(
                b(Expression::CInt(2)),
                b(Expression::Mul(b(Expression::CInt(3)), b(Expression::CInt(4)))),
            ),
        ),
        (
            "(1 + 2) * (3 + 4)",
            Expression::Mul(
                b(Expression::Add(b(Expression::CInt(1)), b(Expression::CInt(2)))),
                b(Expression::Add(b(Expression::CInt(3)), b(Expression::CInt(4)))),
            ),
        ),
    ];

    for (input, expected) in cases {
        let (rest, result) = parse_expression(input).unwrap();
        assert_eq!(rest, "");
        assert_eq!(result, expected);
    }
}

#[test]
fn test_function_calls() {
    let input = "add(5, 3)";
    let expected = Expression::FuncCall("add".to_string(), vec![Expression::CInt(5), Expression::CInt(3)]);

    let (rest, result) = parse_expression(input).unwrap();
    assert_eq!(rest, "");
    assert_eq!(result, expected);
}

#[test]
fn test_tuple_literals() {
    let cases = vec![
        (
            "(1, 2, 3)",
            Expression::Tuple(vec![Expression::CInt(1), Expression::CInt(2), Expression::CInt(3)]),
        ),
        (
            "(\"hello\", True)",
            Expression::Tuple(vec![Expression::CString("hello".to_string()), Expression::CTrue]),
        ),
        ("()", Expression::Tuple(vec![])),
        ("(42,)", Expression::Tuple(vec![Expression::CInt(42)])),
        (
            "((1, 2), (3, 4))",
            Expression::Tuple(vec![
                Expression::Tuple(vec![Expression::CInt(1), Expression::CInt(2)]),
                Expression::Tuple(vec![Expression::CInt(3), Expression::CInt(4)]),
            ]),
        ),
    ];

    for (input, expected) in cases {
        let (rest, result) = parse_expression(input).unwrap();
        assert_eq!(rest, "");
        assert_eq!(result, expected);
    }
}

#[test]
fn test_assignments() {
    let cases = vec![
        ("x = 42", Statement::Assignment("x".to_string(), b(Expression::CInt(42)))),
        (
            "result = add(5, 3)",
            Statement::Assignment(
                "result".to_string(),
                b(Expression::FuncCall("add".to_string(), vec![Expression::CInt(5), Expression::CInt(3)])),
            ),
        ),
    ];

    for (input, expected) in cases {
        let (rest, result) = parse_statement(input).unwrap();
        assert_eq!(rest, "");
        assert_eq!(result, expected);
    }
}

#[test]
fn test_for_over_tuple() {
    let var = |n: &str| b(Expression::Var(n.to_string()));
    let cases = vec![
        (
            "for x in (1, 2, 3): x = x + 1; end",
            Statement::For(
                "x".to_string(),
                b(Expression::Tuple(vec![Expression::CInt(1), Expression::CInt(2), Expression::CInt(3)])),
                Box::new(Statement::Block(vec![Statement::Assignment(
                    "x".to_string(),
                    b(Expression::Add(var("x"), b(Expression::CInt(1)))),
                )])),
            ),
        ),
        (
            "for item in (\"a\", \"b\"): val x = item; end",
            Statement::For(
                "item".to_string(),
                b(Expression::Tuple(vec![
                    Expression::CString("a".to_string()),
                    Expression::CString("b".to_string()),
                ])),
                Box::new(Statement::Block(vec![Statement::ValDeclaration("x".to_string(), var("item"))])),
            ),
        ),
        (
            "for x in (): val y = 1; end",
            Statement::For(
                "x".to_string(),
                b(Expression::Tuple(vec![])),
                Box::new(Statement::Block(vec![Statement::ValDeclaration(
                    "y".to_string(),
                    b(Expression::CInt(1)),
                )])),
            ),
        ),
        (
            "for t in ((1,2), (3,4)): val x = t; end",
            Statement::For(
                "t".to_string(),
                b(Expression::Tuple(vec![
                    Expression::Tuple(vec![Expression::CInt(1), Expression::CInt(2)]),
                    Expression::Tuple(vec![Expression::CInt(3), Expression::CInt(4)]),
                ])),
                Box::new(Statement::Block(vec![Statement::ValDeclaration("x".to_string(), var("t"))])),
            ),
        ),
    ];

    for (input, expected) in cases {
        let (rest, result) = parse_statement(input).unwrap();
        assert_eq!(rest, "");
        assert_eq!(result, expected);
    }
}

#[test]
fn test_invalid_keywords() {
    let invalid_cases = vec![
        "def if(x: Int) -> Int:\n    return x",
        "def while(x: Int) -> Int:\n    return x",
        "if = 10",
        "while = 10",
    ];

    for input in invalid_cases {
        assert!(parse_statement(input).is_err());
    }
}

#[test]
fn test_program_with_adt() {
    let input = r#"
data Shape = Circle Int | Rectangle Int Int;

def area(shape: Shape) -> Int:
    if isCircle(shape):
        r = getCircleRadius(shape);
        return r * r * 3;
    end
    else:
        w = getRectangleWidth(shape);
        h = getRectangleHeight(shape);
        return w * h;
    end
end;

c = Circle(5);
area_c = area(c);
assert(area_c == 75, "area of circle with radius 5 should be 75");"#;
    let result = parse(input);
    assert!(result.is_ok());
}
