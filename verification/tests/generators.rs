use pal::parser::error::ParseError;
use pal::parser::generators::{
    alphanum, alt, char, identifier, letter, list, string, symbol,
};

#[test]
fn char_parser_parses() {
    assert_eq!(char('a').parse("abc"), Ok(('a', "bc".to_string())));

    assert!(char('a').parse("bc").is_err());
}

#[test]
fn alt_parser_parses() {
    assert_eq!(
        alt(['a', 'b'].into_iter().map(char)).parse("abc"),
        Ok(('a', "bc".to_string()))
    );

    assert_eq!(
        alt(['a', 'b'].into_iter().map(char)).parse("bac"),
        Ok(('b', "ac".to_string()))
    );

    assert!(alt(['a', 'b'].into_iter().map(char)).parse("cba").is_err(),);
}

#[test]
fn identifiers_parse() {
    assert_eq!(
        identifier().parse("abcdef123 fuck"),
        Ok(("abcdef123".to_string(), "fuck".to_string()))
    );

    assert!(identifier().parse("123abc").is_err(),)
}

#[test]
fn symbols_parse() {
    assert_eq!(
        symbol("fn").parse("fn hello"),
        Ok(("fn".to_string(), "hello".to_string()))
    );

    assert!(symbol("fn").parse("nf hello").is_err());
}

#[test]
fn parses_chars() {
    assert_eq!(
        char('a').parse(&"abc".to_string()),
        Ok(('a', "bc".to_string()))
    );

    assert_eq!(
        char('1').parse(&"123".to_string()),
        Ok(('1', "23".to_string()))
    );

    assert_eq!(
        char('f').parse(&"abc".to_string()),
        Err(ParseError::CharacterMismatch {
            expected: Some('f'),
            found: Some('a')
        })
    );
}

#[test]
fn parses_lists() {
    assert_eq!(
        list('a'..='z').parse(&"abc".to_string()),
        Ok(('a', "bc".to_string()))
    );

    assert_eq!(
        list('a'..='z').parse(&"Abc".to_string()),
        Err(ParseError::CharacterMismatch {
            expected: Some('z'),
            found: Some('A')
        })
    );
}

#[test]
fn alphanumerics_parse() {
    assert_eq!(
        alphanum().parse(&"Hello, world!".to_string()),
        Ok(('H', "ello, world!".to_string()))
    );

    assert_eq!(
        alphanum().parse(&" Hello, world!".to_string()),
        Err(ParseError::CharacterMismatch {
            expected: Some('z'),
            found: Some(' ')
        })
    );
}

#[test]
fn parses_many() {
    assert_eq!(
        letter().many().parse(&"fuckshit123".to_string()),
        Ok((
            vec!['f', 'u', 'c', 'k', 's', 'h', 'i', 't'],
            "123".to_string()
        ))
    );

    assert_eq!(
        letter().many().parse(&"123fuckshit".to_string()),
        Ok((vec![], "123fuckshit".to_string()))
    );
}

#[test]
fn parses_string() {
    assert_eq!(
        string("123").parse(&"1234".to_string()),
        Ok(("123".to_string(), "4".to_string()))
    );
}

#[test]
fn parses_identifiers() {
    assert_eq!(
        identifier().parse(&"_myShit123".to_string()),
        Ok(("_myShit123".to_string(), "".to_string()))
    );

    assert_eq!(
        identifier().parse(&"123fuckshit".to_string()),
        Err(ParseError::CharacterMismatch {
            expected: Some('z'),
            found: Some('1')
        })
    );
}
