use pal::parser::error::ParseError;
use pal::program::{
    fn_call, fn_def, item, program, return_stat, statement, to_small_number, Item, Program,
    Statement,
};

#[test]
fn the_sample_program_parses() {
    let source = r#"
fn main() -> i32 {
    printf("Hello world");
    printf("Blah blah blah");
    return 69;
}
"#;
    let expected = Program(vec![Item::FnDef(
        "main".to_string(),
        vec![
            Statement::FnCall("printf".to_string(), "Hello world".to_string()),
            Statement::FnCall("printf".to_string(), "Blah blah blah".to_string()),
            Statement::Return(69),
        ],
    )]);
    assert_eq!(program().parse(source), Ok((expected, "".to_string())));
}

#[test]
fn a_call_keeps_the_text_between_the_quotes() {
    assert_eq!(
        fn_call().parse("print(\"a b  c\") rest"),
        Ok((
            Statement::FnCall("print".to_string(), "a b  c".to_string()),
            "rest".to_string()
        ))
    );
    // the whitespace after the opening quote belongs to the quote
    assert_eq!(
        fn_call().parse("print(\"  ab\")"),
        Ok((
            Statement::FnCall("print".to_string(), "ab".to_string()),
            "".to_string()
        ))
    );
    assert_eq!(
        fn_call().parse("print(\"a,b\")"),
        Err(ParseError::CharacterMismatch {
            expected: Some('"'),
            found: Some(',')
        })
    );
}

#[test]
fn a_return_holds_a_number_of_32_bits() {
    assert_eq!(
        return_stat().parse("return 69;"),
        Ok((Statement::Return(69), ";".to_string()))
    );
    assert_eq!(
        return_stat().parse("return 4294967295"),
        Ok((Statement::Return(u32::MAX), "".to_string()))
    );
    assert_eq!(return_stat().parse("return 4294967296"), Err(ParseError::Unit));
    assert_eq!(return_stat().parse("return ;"), Err(ParseError::Unit));
    assert_eq!(
        return_stat().parse("give 1"),
        Err(ParseError::CharacterMismatch {
            expected: Some('r'),
            found: Some('g')
        })
    );
}

#[test]
fn small_numbers_convert() {
    assert_eq!(to_small_number(&vec!['4', '2']), Some(42));
    assert_eq!(to_small_number(&"4294967295".chars().collect()), Some(u32::MAX));
    assert_eq!(to_small_number(&"4294967296".chars().collect()), None);
    assert_eq!(to_small_number(&vec![]), None);
    assert_eq!(to_small_number(&vec!['x']), None);
}

#[test]
fn statements_end_with_a_semicolon() {
    assert_eq!(
        statement().parse("return 1; x"),
        Ok((Statement::Return(1), "x".to_string()))
    );
    assert_eq!(
        statement().parse("f(\"x\") ;"),
        Ok((
            Statement::FnCall("f".to_string(), "x".to_string()),
            "".to_string()
        ))
    );
    assert!(statement().parse("return 1").is_err());
}

#[test]
fn functions_take_no_parameters() {
    let expected = Item::FnDef("f".to_string(), vec![Statement::Return(0)]);
    assert_eq!(
        fn_def().parse("fn f() -> i32 { return 0; }"),
        Ok((expected.clone(), "".to_string()))
    );
    assert_eq!(
        item().parse("fn f() -> i32 { return 0; } fn"),
        Ok((expected, "fn".to_string()))
    );
    assert!(fn_def().parse("fn f(a) -> i32 { }").is_err());
    assert_eq!(
        fn_def().parse("fn f() -> i32 { }"),
        Ok((Item::FnDef("f".to_string(), vec![]), "".to_string()))
    );
}

#[test]
fn a_program_stops_at_what_is_no_function() {
    assert_eq!(
        program().parse("fn f() -> i32 { } let"),
        Ok((
            Program(vec![Item::FnDef("f".to_string(), vec![])]),
            "let".to_string()
        ))
    );
    assert_eq!(
        program().parse(""),
        Ok((Program(vec![]), "".to_string()))
    );
}
