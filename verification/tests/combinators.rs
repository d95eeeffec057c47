use pal::parser::error::ParseError;
use pal::parser::Parser;

fn char_a() -> Parser<char> {
    Parser::new(move |input: String| {
        let mut chars = input.chars();
        match chars.next() {
            Some('a') => Ok(('a', chars.collect())),
            found => Err(ParseError::CharacterMismatch {
                expected: Some('a'),
                found,
            }),
        }
    })
}

#[test]
fn functor_is_mappable() {
    assert_eq!(
        Parser::pure(()).map(|_| 32u32).parse("123"),
        Ok((32u32, "123".to_string()))
    );
}

#[test]
fn applicative_is_pure() {
    assert_eq!(Parser::pure(()).parse("123"), Ok(((), "123".to_string())));
}

#[test]
fn applicatives_can_chain() {
    let p1: Parser<()> = Parser::pure(());
    let p2: Parser<()> = Parser::empty(ParseError::Unit);

    assert_eq!(
        p1.clone().chain(p1.clone()).parse(""),
        Ok((((), ()), "".to_string()))
    );

    assert_eq!(
        p1.clone().chain(p2.clone()).parse(""),
        Err(ParseError::Unit)
    );

    assert_eq!(
        p2.clone().chain(p1.clone()).parse(""),
        Err(ParseError::Unit)
    );
}

#[test]
fn applicatives_can_chain_left_and_right() {
    let p1: Parser<()> = Parser::pure(());
    let p2: Parser<()> = Parser::pure(());
    assert_eq!(
        p1.clone().left(p2.clone()).parse(""),
        Ok(((), "".to_string()))
    );
    assert_eq!(
        p1.clone().right(p2.clone()).parse(""),
        Ok(((), "".to_string()))
    );
}

#[test]
fn alternative_is_empty() {
    assert_eq!(
        Parser::<()>::empty(ParseError::Unit).parse(&"".to_string()),
        Err(ParseError::Unit)
    );
}

#[test]
fn alternative_maybe_exists() {
    assert_eq!(
        Parser::pure(()).maybe().parse(""),
        Ok((Some(()), "".to_string()))
    );

    assert_eq!(
        Parser::<()>::empty(ParseError::Unit).maybe().parse(""),
        Ok((None, "".to_string()))
    );
}

#[test]
fn alternative_many() {
    let char_a = char_a();

    assert_eq!(
        char_a.clone().many().parse("aaab"),
        Ok((vec!['a', 'a', 'a'], "b".to_string()))
    );

    assert_eq!(
        char_a.clone().many().parse("bbbb"),
        Ok((vec![], "bbbb".to_string()))
    );
}

#[test]
fn alternative_some() {
    let char_a = char_a();

    assert_eq!(
        char_a.clone().some().parse("aaab"),
        Ok((vec!['a', 'a', 'a'], "b".to_string()))
    );

    assert_eq!(
        char_a.clone().some().parse("bbbb"),
        Err(ParseError::CharacterMismatch {
            expected: Some('a'),
            found: Some('b')
        })
    );
}
