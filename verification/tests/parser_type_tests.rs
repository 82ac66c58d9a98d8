use r_python::ast::Type;
use r_python::parser::{
    parse_adt_type, parse_basic_types, parse_function_type, parse_list_type, parse_maybe_type, parse_result_type,
    parse_tuple_type, parse_type, ParseError,
};

#[test]
fn test_parse_basic_types() {
    assert_eq!(parse_basic_types("Int"), Ok(("".to_string(), Type::TInteger)));
    assert_eq!(parse_basic_types("Boolean"), Ok(("".to_string(), Type::TBool)));
}

#[test]
fn test_parse_list_type() {
    assert_eq!(
        parse_list_type("[Int]"),
        Ok(("".to_string(), Type::TList(Box::new(Type::TInteger))))
    );
}

#[test]
fn test_parse_tuple_type() {
    assert_eq!(
        parse_tuple_type("(Int, Real)"),
        Ok(("".to_string(), Type::TTuple(vec![Type::TInteger, Type::TReal])))
    );
}

#[test]
fn test_parse_maybe_type() {
    assert_eq!(
        parse_maybe_type("Maybe [Boolean]"),
        Ok(("".to_string(), Type::TMaybe(Box::new(Type::TBool))))
    );
}

#[test]
fn test_parse_result_type() {
    assert_eq!(
        parse_result_type("Result [Int, String]"),
        Ok((
            "".to_string(),
            Type::TResult(Box::new(Type::TInteger), Box::new(Type::TString))
        ))
    );
}

#[test]
fn test_parse_function_type() {
    assert_eq!(
        parse_function_type("(Int, Boolean) -> String"),
        Ok((
            "".to_string(),
            Type::TFunction(Box::new(Type::TString), vec![Type::TInteger, Type::TBool])
        ))
    );
}

#[test]
fn basic_types_leave_the_rest() {
    assert_eq!(parse_basic_types("Real rest"), Ok(("rest".to_string(), Type::TReal)));
    assert_eq!(parse_basic_types("String"), Ok(("".to_string(), Type::TString)));
    assert_eq!(parse_basic_types("Unit"), Ok(("".to_string(), Type::TVoid)));
    assert_eq!(parse_basic_types("Any"), Ok(("".to_string(), Type::TAny)));
}

#[test]
fn unknown_type_is_refused() {
    assert_eq!(parse_basic_types("Float"), Err(ParseError));
    assert_eq!(parse_list_type("[Int"), Err(ParseError));
    assert_eq!(parse_type(""), Err(ParseError));
}

#[test]
fn nested_type_is_parsed() {
    assert_eq!(
        parse_type("[Maybe [Int]]"),
        Ok((
            "".to_string(),
            Type::TList(Box::new(Type::TMaybe(Box::new(Type::TInteger))))
        ))
    );
}

#[test]
fn data_types_compare_by_their_constructors() {
    let (_, a) = parse_adt_type("data Shape: | Rect [Int] | Dot end").unwrap();
    let (_, b) = parse_adt_type("data Shape: | Dot | Rect [Int] end").unwrap();
    assert_eq!(a, b);
    assert_eq!(
        a,
        Type::TAlgebraicData(
            "Shape".to_string(),
            vec![
                ("Dot".to_string(), vec![]),
                ("Rect".to_string(), vec![Type::TList(Box::new(Type::TInteger))]),
            ]
        )
    );
    let (_, c) = parse_adt_type("data T: | A | A [Boolean] end").unwrap();
    assert_eq!(
        c,
        Type::TAlgebraicData("T".to_string(), vec![("A".to_string(), vec![Type::TList(Box::new(Type::TBool))])])
    );
}
