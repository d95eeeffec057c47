use pal::codegen::{machine_type, CodegenError, MachineType};
use pal::grammar::ast::{Expression, Item, Module, Statement, Type};
use pal::grammar::{
    argument_parser, atomic, expression, extern_function_definition, function_call,
    function_declaration, item, module, num_literal, pointer, ret, statement, str_literal,
    to_number, typ,
};
use pal::parser::error::ParseError;

fn mismatch(expected: char, found: Option<char>) -> ParseError {
    ParseError::CharacterMismatch {
        expected: Some(expected),
        found,
    }
}

#[test]
fn atomic_types_are_names() {
    assert_eq!(
        atomic().parse("u32 x"),
        Ok((Type::Atomic("u32".to_string()), "x".to_string()))
    );
    assert_eq!(atomic().parse("*u32"), Err(mismatch('z', Some('*'))));
}

#[test]
fn pointers_nest() {
    assert_eq!(
        typ().parse("**char rest"),
        Ok((
            Type::Pointer(Box::new(Type::Pointer(Box::new(Type::Atomic(
                "char".to_string()
            ))))),
            "rest".to_string()
        ))
    );
    assert_eq!(
        pointer().parse("* u32"),
        Ok((
            Type::Pointer(Box::new(Type::Atomic("u32".to_string()))),
            "".to_string()
        ))
    );
    assert_eq!(
        typ().parse("u32"),
        Ok((Type::Atomic("u32".to_string()), "".to_string()))
    );
}

#[test]
fn a_type_reports_the_greatest_failure_of_its_levels() {
    // no name after the stars: the digit found there ranks above the stars found before
    assert_eq!(typ().parse("**1"), Err(mismatch('z', Some('1'))));
    // at the end of the input nothing is found there, and a star found before ranks above
    assert_eq!(typ().parse("**"), Err(mismatch('z', Some('*'))));
    assert_eq!(typ().parse(""), Err(mismatch('z', None)));
    assert_eq!(pointer().parse("u32"), Err(mismatch('*', Some('u'))));
}

#[test]
fn a_deeply_nested_type_parses() {
    let depth = 2000;
    let mut source = "*".repeat(depth);
    source.push_str("u32");
    let (parsed, rest) = typ().parse(&source).expect("a type");
    assert_eq!(rest, "");
    let mut inner = &parsed;
    let mut seen = 0;
    while let Type::Pointer(next) = inner {
        inner = next;
        seen += 1;
    }
    assert_eq!(seen, depth);
    assert_eq!(inner, &Type::Atomic("u32".to_string()));
}

#[test]
fn string_literals_hold_alphanumerics() {
    assert_eq!(
        str_literal().parse("\"hello\" rest"),
        Ok((
            Expression::StringLiteral("hello".to_string()),
            "rest".to_string()
        ))
    );
    assert_eq!(
        str_literal().parse("\"\""),
        Ok((Expression::StringLiteral("".to_string()), "".to_string()))
    );
    assert_eq!(
        str_literal().parse("\"two words\""),
        Err(mismatch('"', Some('w')))
    );
    assert_eq!(str_literal().parse("hello"), Err(mismatch('"', Some('h'))));
}

#[test]
fn numbers_are_decimal_and_fit_64_bits() {
    assert_eq!(
        num_literal().parse("69;"),
        Ok((Expression::NumericLiteral(69), ";".to_string()))
    );
    assert_eq!(
        num_literal().parse("18446744073709551615"),
        Ok((Expression::NumericLiteral(u64::MAX), "".to_string()))
    );
    assert_eq!(
        num_literal().parse("18446744073709551616"),
        Err(ParseError::Unit)
    );
    assert_eq!(
        num_literal().parse("007 x"),
        Ok((Expression::NumericLiteral(7), " x".to_string()))
    );
    assert_eq!(num_literal().parse("x"), Err(ParseError::Unit));
    assert_eq!(num_literal().parse(""), Err(ParseError::Unit));
}

#[test]
fn digits_convert_to_numbers() {
    assert_eq!(to_number(&vec!['1', '2', '3']), Some(123));
    assert_eq!(to_number(&vec!['0']), Some(0));
    assert_eq!(to_number(&vec![]), None);
    assert_eq!(to_number(&vec!['1', 'a']), None);
    assert_eq!(to_number(&vec!['+', '1']), None);
    assert_eq!(
        to_number(&"18446744073709551615".chars().collect()),
        Some(u64::MAX)
    );
    assert_eq!(to_number(&"18446744073709551616".chars().collect()), None);
    assert_eq!(to_number(&"99999999999999999999".chars().collect()), None);
}

#[test]
fn expressions_are_texts_or_numbers() {
    assert_eq!(
        expression().parse("\"abc\""),
        Ok((Expression::StringLiteral("abc".to_string()), "".to_string()))
    );
    assert_eq!(
        expression().parse("42"),
        Ok((Expression::NumericLiteral(42), "".to_string()))
    );
    // neither: the mismatch of the text ranks above the failure of the number
    assert_eq!(expression().parse("x"), Err(mismatch('"', Some('x'))));
}

#[test]
fn calls_take_expressions_between_commas() {
    assert_eq!(
        function_call().parse("printf(\"hello\", 1, 2) rest"),
        Ok((
            Statement::FunctionCall(
                "printf".to_string(),
                vec![
                    Expression::StringLiteral("hello".to_string()),
                    Expression::NumericLiteral(1),
                    Expression::NumericLiteral(2)
                ]
            ),
            "rest".to_string()
        ))
    );
    assert_eq!(
        function_call().parse("f()"),
        Ok((
            Statement::FunctionCall("f".to_string(), vec![]),
            "".to_string()
        ))
    );
    assert!(function_call().parse("f(1,)").is_err());
    assert!(function_call().parse("f 1").is_err());
}

#[test]
fn returns_and_statements() {
    assert_eq!(
        ret().parse("return 5"),
        Ok((
            Statement::Return(Expression::NumericLiteral(5)),
            "".to_string()
        ))
    );
    assert_eq!(
        statement().parse("return 5; next"),
        Ok((
            Statement::Return(Expression::NumericLiteral(5)),
            "next".to_string()
        ))
    );
    assert_eq!(
        statement().parse("f(1);"),
        Ok((
            Statement::FunctionCall("f".to_string(), vec![Expression::NumericLiteral(1)]),
            "".to_string()
        ))
    );
    assert_eq!(statement().parse("return 5"), Err(mismatch(';', None)));
}

#[test]
fn parameters_are_named_and_typed() {
    assert_eq!(
        argument_parser().parse("a: u32, b: *char,)"),
        Ok((
            vec![
                ("a".to_string(), Type::Atomic("u32".to_string())),
                (
                    "b".to_string(),
                    Type::Pointer(Box::new(Type::Atomic("char".to_string())))
                )
            ],
            ")".to_string()
        ))
    );
    assert_eq!(argument_parser().parse(")"), Ok((vec![], ")".to_string())));
}

#[test]
fn items_are_definitions_or_declarations() {
    let printf = Item::ExternFunctionDefinition(
        "printf".to_string(),
        vec![(
            "format".to_string(),
            Type::Pointer(Box::new(Type::Atomic("char".to_string()))),
        )],
        Type::Atomic("u32".to_string()),
    );
    assert_eq!(
        extern_function_definition().parse("ext fn printf(format: *char) -> u32;"),
        Ok((printf.clone(), ";".to_string()))
    );
    let main = Item::FunctionDeclaration(
        "main".to_string(),
        vec![],
        Type::Atomic("u32".to_string()),
        vec![
            Statement::FunctionCall(
                "printf".to_string(),
                vec![Expression::StringLiteral("hello".to_string())],
            ),
            Statement::Return(Expression::NumericLiteral(0)),
        ],
    );
    let source = "fn main() -> u32 { printf(\"hello\"); return 0; }";
    assert_eq!(
        function_declaration().parse(source),
        Ok((main.clone(), "".to_string()))
    );
    assert_eq!(item().parse(source), Ok((main, "".to_string())));
    assert_eq!(
        item().parse("ext fn printf(format: *char) -> u32"),
        Ok((printf, "".to_string()))
    );
    assert!(item().parse("let x").is_err());
}

#[test]
fn a_module_holds_the_items_that_a_semicolon_ends() {
    let source = "
        ext fn printf(format: *char) -> u32;
        fn main() -> u32 {
            printf(\"hello\");
            return 69;
        };
        trailing";
    let parsed = module("pal".to_string()).parse(source);
    let expected = Module(
        "pal".to_string(),
        vec![
            Item::ExternFunctionDefinition(
                "printf".to_string(),
                vec![(
                    "format".to_string(),
                    Type::Pointer(Box::new(Type::Atomic("char".to_string()))),
                )],
                Type::Atomic("u32".to_string()),
            ),
            Item::FunctionDeclaration(
                "main".to_string(),
                vec![],
                Type::Atomic("u32".to_string()),
                vec![
                    Statement::FunctionCall(
                        "printf".to_string(),
                        vec![Expression::StringLiteral("hello".to_string())],
                    ),
                    Statement::Return(Expression::NumericLiteral(69)),
                ],
            ),
        ],
    );
    assert_eq!(parsed, Ok((expected, "trailing".to_string())));
    // an item without its semicolon is no item of the module: nothing is consumed
    assert_eq!(
        module("m".to_string()).parse("fn f() -> u32 {}"),
        Ok((Module("m".to_string(), vec![]), "fn f() -> u32 {}".to_string()))
    );
}

#[test]
fn types_lower_to_machine_types() {
    assert_eq!(
        machine_type(&Type::Atomic("u32".to_string())),
        Ok(MachineType::Int32)
    );
    assert_eq!(
        machine_type(&Type::Atomic("char".to_string())),
        Ok(MachineType::Int8)
    );
    assert_eq!(
        machine_type(&Type::Pointer(Box::new(Type::Atomic("nothing".to_string())))),
        Ok(MachineType::Pointer)
    );
    assert_eq!(
        machine_type(&Type::Atomic("i32".to_string())),
        Err(CodegenError::TypeDoesNotExist)
    );
    assert_eq!(
        machine_type(&Type::Atomic("".to_string())),
        Err(CodegenError::TypeDoesNotExist)
    );
}

#[test]
fn a_cloned_type_is_the_same_type() {
    let nested = Type::Pointer(Box::new(Type::Pointer(Box::new(Type::Atomic(
        "u32".to_string(),
    )))));
    assert_eq!(nested.clone(), nested);
}
