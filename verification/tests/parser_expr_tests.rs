use r_python::ast::Expression;
use r_python::parser::{
    flexible_keyword, identifier, identifier_start_or_continue, keyword, parse_expression, parse_list,
    parse_literal_expression, separator, ParseError,
};

fn b(e: Expression) -> Box<Expression> {
    Box::new(e)
}

#[test]
fn test_parse_expression_integer() {
    assert_eq!(
        parse_expression("123abc"),
        Ok(("abc".to_string(), Expression::CInt(123)))
    );

    assert_eq!(
        parse_expression("-456 rest"),
        Ok((" rest".to_string(), Expression::CInt(-456)))
    );
}

#[test]
fn test_keywords() {
    let cases = [
        ("if", "if"),
        ("else", "else"),
        ("while", "while"),
        ("and", "and"),
        ("or", "or"),
        ("not", "not"),
        ("for", "for"),
        ("def", "def"),
    ];

    for (input, expected) in cases {
        let result = keyword(input, expected);
        assert!(result.is_ok(), "Failed to parse keyword '{}'", expected);
        let (rest, parsed) = result.unwrap();
        assert_eq!(parsed, expected);
        assert!(rest.is_empty() || rest.starts_with(' '));
    }
}

#[test]
fn test_keyword_should_not_match_prefix_of_identifiers() {
    assert!(keyword("iffy", "if").is_err());
    assert!(keyword("default", "def").is_err());
    assert!(keyword("origin", "or").is_err());
}

#[test]
fn test_parse_empty_list() {
    let input = "[]";
    let (rest, result) = parse_list(input).unwrap();
    assert_eq!(rest, "");
    assert!(matches!(result, Expression::ListValue(elements) if elements.is_empty()));
}

#[test]
fn test_parse_integer_list() {
    let input = "[1, 2, 3]";
    let (rest, result) = parse_list(input).unwrap();
    assert_eq!(rest, "");
    if let Expression::ListValue(elements) = result {
        assert_eq!(elements.len(), 3);
        assert!(matches!(elements[0], Expression::CInt(1)));
        assert!(matches!(elements[1], Expression::CInt(2)));
        assert!(matches!(elements[2], Expression::CInt(3)));
    } else {
        panic!("Expected ListValue expression");
    }
}

#[test]
fn test_parse_string_list() {
    let input = "[\"abc\", \"def\"]";
    let (rest, result) = parse_list(input).unwrap();
    assert_eq!(rest, "");
    if let Expression::ListValue(elements) = result {
        assert_eq!(elements.len(), 2);
        assert!(matches!(elements[0], Expression::CString(ref s) if s == "abc"));
        assert!(matches!(elements[1], Expression::CString(ref s) if s == "def"));
    } else {
        panic!("Expected ListValue expression");
    }
}

#[test]
fn test_parse_list_with_spaces() {
    let input = "[ 1 , 2 , 3 ]";
    let (rest, result) = parse_list(input).unwrap();
    assert_eq!(rest, "");
    if let Expression::ListValue(elements) = result {
        assert_eq!(elements.len(), 3);
        assert!(matches!(elements[0], Expression::CInt(1)));
        assert!(matches!(elements[1], Expression::CInt(2)));
        assert!(matches!(elements[2], Expression::CInt(3)));
    } else {
        panic!("Expected ListValue expression");
    }
}

#[test]
fn test_parse_list_with_outer_spaces() {
    let input = "    [1, 2, 3]    rest";
    let (rest, result) = parse_list(input).unwrap();
    assert_eq!(rest, "rest");
    if let Expression::ListValue(elements) = result {
        assert_eq!(elements.len(), 3);
        assert!(matches!(elements[0], Expression::CInt(1)));
        assert!(matches!(elements[1], Expression::CInt(2)));
        assert!(matches!(elements[2], Expression::CInt(3)));
    } else {
        panic!("Expected ListValue expression");
    }
}

#[test]
fn test_parse_nested_list() {
    let input = "[[1, 2], [3, 4]]";
    let (rest, result) = parse_list(input).unwrap();
    assert_eq!(rest, "");
    if let Expression::ListValue(elements) = result {
        assert_eq!(elements.len(), 2);
        for element in elements {
            if let Expression::ListValue(inner) = element {
                assert_eq!(inner.len(), 2);
            } else {
                panic!("Expected inner ListValue expression");
            }
        }
    } else {
        panic!("Expected ListValue expression");
    }
}

#[test]
fn test_parse_literal_expression_bool() {
    assert_eq!(
        parse_literal_expression("True"),
        Ok(("".to_string(), Expression::CTrue))
    );
    assert_eq!(
        parse_literal_expression("False"),
        Ok(("".to_string(), Expression::CFalse))
    );
}

#[test]
fn test_parse_literal_expression_int() {
    assert_eq!(
        parse_literal_expression("42"),
        Ok(("".to_string(), Expression::CInt(42)))
    );
    assert_eq!(
        parse_literal_expression("-7"),
        Ok(("".to_string(), Expression::CInt(-7)))
    );
}

#[test]
fn test_parse_literal_expression_real() {
    assert_eq!(
        parse_literal_expression("3.14"),
        Ok(("".to_string(), Expression::CReal("3.14".to_string())))
    );
    assert_eq!(
        parse_literal_expression("-0.5"),
        Ok(("".to_string(), Expression::CReal("-0.5".to_string())))
    );
}

#[test]
fn test_parse_literal_expression_string() {
    assert_eq!(
        parse_literal_expression("\"abc\""),
        Ok(("".to_string(), Expression::CString("abc".to_string())))
    );
    assert_eq!(
        parse_literal_expression("\"\""),
        Ok(("".to_string(), Expression::CString("".to_string())))
    );
}

#[test]
fn comparison_and_logic_are_parsed_by_precedence() {
    assert_eq!(
        parse_expression("1 + 2 == 3"),
        Ok((
            "".to_string(),
            Expression::EQ(b(Expression::Add(b(Expression::CInt(1)), b(Expression::CInt(2)))), b(Expression::CInt(3)))
        ))
    );
    assert_eq!(
        parse_expression("10 - 4 - 3"),
        Ok((
            "".to_string(),
            Expression::Sub(b(Expression::Sub(b(Expression::CInt(10)), b(Expression::CInt(4)))), b(Expression::CInt(3)))
        ))
    );
}

#[test]
fn identifier_refuses_keywords_and_digits() {
    assert_eq!(identifier("abc_1 rest"), Ok((" rest".to_string(), "abc_1".to_string())));
    assert_eq!(identifier("while"), Err(ParseError));
    assert_eq!(identifier("1abc"), Err(ParseError));
}

#[test]
fn empty_input_is_no_expression() {
    assert_eq!(parse_expression(""), Err(ParseError));
    assert_eq!(parse_list("[1, 2"), Err(ParseError));
}

#[test]
fn keyword_before_a_parenthesis_is_recognised() {
    assert_eq!(keyword("if(x)", "if"), Ok(("(x)".to_string(), "if".to_string())));
    assert_eq!(keyword("  while   x", "while"), Ok(("x".to_string(), "while".to_string())));
    assert_eq!(keyword("while_x", "while"), Err(ParseError));
}

#[test]
fn separator_takes_white_space_around() {
    assert_eq!(separator("  ,  rest", ","), Ok(("rest".to_string(), ",".to_string())));
    assert_eq!(separator("->x", "->"), Ok(("x".to_string(), "->".to_string())));
    assert_eq!(separator("x", ","), Err(ParseError));
}

#[test]
fn flexible_keyword_may_run_into_a_name() {
    assert_eq!(flexible_keyword("ifx", "if"), Ok(("x".to_string(), "if".to_string())));
    assert_eq!(flexible_keyword(" return  y", "return"), Ok(("y".to_string(), "return".to_string())));
    assert_eq!(flexible_keyword("els", "else"), Err(ParseError));
}

#[test]
fn word_pieces() {
    assert_eq!(identifier_start_or_continue("abc1"), Ok(("1".to_string(), "abc".to_string())));
    assert_eq!(identifier_start_or_continue("_x"), Ok(("x".to_string(), "_".to_string())));
    assert_eq!(identifier_start_or_continue("123a"), Ok(("a".to_string(), "123".to_string())));
    assert_eq!(identifier_start_or_continue("+"), Err(ParseError));
    assert_eq!(identifier_start_or_continue(""), Err(ParseError));
}

#[test]
fn empty_keyword_needs_a_boundary() {
    assert_eq!(keyword(" +1", ""), Ok(("+1".to_string(), "".to_string())));
    assert_eq!(keyword("x", ""), Err(ParseError));
}
