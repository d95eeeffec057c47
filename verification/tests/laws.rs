use std::sync::atomic::{AtomicUsize, Ordering};
use std::sync::Arc;

use pal::parser::error::ParseError;
use pal::parser::generators::{
    alt, between, char, digit, identifier, letter, list, lowercase, other, string, strip, symbol,
    uppercase, whitespace,
};
use pal::parser::Parser;

fn mismatch(expected: char, found: Option<char>) -> ParseError {
    ParseError::CharacterMismatch {
        expected: Some(expected),
        found,
    }
}

fn ok<T>(value: T, rest: &str) -> Result<(T, String), ParseError> {
    Ok((value, rest.to_string()))
}

#[test]
fn pure_consumes_nothing_and_never_fails() {
    for input in ["", "a", "abc def", "  \n", "héllo"] {
        assert_eq!(Parser::pure(7u8).parse(input), ok(7u8, input));
        assert_eq!(
            Parser::pure("x".to_string()).parse(input),
            ok("x".to_string(), input)
        );
    }
}

#[test]
fn empty_fails_with_its_error_on_every_input() {
    let errors = [
        ParseError::Unit,
        mismatch('a', None),
        mismatch('a', Some('b')),
        ParseError::CharacterMismatch {
            expected: None,
            found: None,
        },
    ];
    for error in errors {
        for input in ["", "a", "abc"] {
            assert_eq!(Parser::<char>::empty(error).parse(input), Err(error));
        }
    }
}

#[test]
fn char_matches_the_head_or_names_what_it_found() {
    assert_eq!(char('c').parse("cab"), ok('c', "ab"));
    assert_eq!(char('c').parse("c"), ok('c', ""));
    assert_eq!(char('c').parse("abc"), Err(mismatch('c', Some('a'))));
    assert_eq!(char('c').parse(""), Err(mismatch('c', None)));
    assert_eq!(char('é').parse("était"), ok('é', "tait"));
    assert_eq!(char('e').parse("était"), Err(mismatch('e', Some('é'))));
}

#[test]
fn or_tries_its_second_branch_on_the_whole_input() {
    // the first branch consumes `a` before it fails on `c`
    let first = char('a').chain(char('b')).map(|_| "ab".to_string());
    let second = string("ac");
    assert_eq!(first.clone().parse("ac"), Err(mismatch('b', Some('c'))));
    assert_eq!(first.or(second).parse("acd"), ok("ac".to_string(), "d"));
}

#[test]
fn or_reports_the_greater_failure() {
    let unit: Parser<char> = Parser::empty(ParseError::Unit);
    assert_eq!(
        unit.clone().or(char('a')).parse("b"),
        Err(mismatch('a', Some('b')))
    );
    assert_eq!(
        char('a').or(unit.clone()).parse("b"),
        Err(mismatch('a', Some('b')))
    );
    assert_eq!(unit.clone().or(unit).parse("b"), Err(ParseError::Unit));
    assert_eq!(
        char('a').or(char('z')).parse("b"),
        Err(mismatch('z', Some('b')))
    );
    assert_eq!(
        char('z').or(char('a')).parse("b"),
        Err(mismatch('z', Some('b')))
    );
    assert_eq!(char('z').or(char('a')).parse("a"), ok('a', ""));
}

#[test]
fn many_collects_until_the_first_failure() {
    assert_eq!(char('a').many().parse("aaab"), ok(vec!['a', 'a', 'a'], "b"));
    assert_eq!(char('a').many().parse("bbbb"), ok(vec![], "bbbb"));
    assert_eq!(char('a').many().parse(""), ok(vec![], ""));
    assert_eq!(char('a').many().parse("aaa"), ok(vec!['a', 'a', 'a'], ""));
    assert_eq!(
        char('a').chain(char('b')).many().parse("ababac"),
        ok(vec![('a', 'b'), ('a', 'b')], "ac")
    );
}

#[test]
fn a_repetition_that_cannot_advance_is_given_up() {
    assert_eq!(Parser::pure(()).many().parse("abc"), Err(ParseError::Unit));
    assert_eq!(Parser::pure(()).some().parse("abc"), Err(ParseError::Unit));
    assert_eq!(
        char('a').maybe().many().parse("aab"),
        Err(ParseError::Unit)
    );
    let grows = Parser::new(|input: String| Ok(((), format!("{input}x"))));
    assert_eq!(grows.many().parse("abc"), Err(ParseError::Unit));
}

#[test]
fn some_needs_one_match() {
    assert_eq!(char('a').some().parse("aaab"), ok(vec!['a', 'a', 'a'], "b"));
    assert_eq!(char('a').some().parse("ab"), ok(vec!['a'], "b"));
    assert_eq!(
        char('a').some().parse("bbbb").err(),
        char('a').parse("bbbb").err()
    );
    assert_eq!(char('a').some().parse("bbbb"), Err(mismatch('a', Some('b'))));
    assert_eq!(char('a').some().parse(""), Err(mismatch('a', None)));
}

#[test]
fn maybe_never_fails() {
    assert_eq!(char('a').maybe().parse("ab"), ok(Some('a'), "b"));
    assert_eq!(char('a').maybe().parse("b"), ok(None, "b"));
    assert_eq!(char('a').maybe().parse(""), ok(None, ""));
}

#[test]
fn otherwise_falls_back_without_consuming() {
    assert_eq!(char('a').otherwise('x').parse("ab"), ok('a', "b"));
    assert_eq!(char('a').otherwise('x').parse("b"), ok('x', "b"));
}

#[test]
fn sequences_fail_with_the_first_failure() {
    assert_eq!(char('a').chain(char('b')).parse("abc"), ok(('a', 'b'), "c"));
    assert_eq!(char('a').and(char('b')).parse("abc"), ok(('a', 'b'), "c"));
    assert_eq!(
        char('a').chain(char('b')).parse("xbc"),
        Err(mismatch('a', Some('x')))
    );
    assert_eq!(
        char('a').chain(char('b')).parse("axc"),
        Err(mismatch('b', Some('x')))
    );
    assert_eq!(char('a').left(char('b')).parse("abc"), ok('a', "c"));
    assert_eq!(char('a').right(char('b')).parse("abc"), ok('b', "c"));
    assert_eq!(
        char('a').left(char('b')).parse("a"),
        Err(mismatch('b', None))
    );
}

#[test]
fn between_keeps_the_middle() {
    assert_eq!(
        between(char('('), char('x'), char(')')).parse("(x)y"),
        ok('x', "y")
    );
    assert_eq!(
        char('x').between(char('('), char(')')).parse("(x)y"),
        ok('x', "y")
    );
    assert_eq!(
        between(char('('), char('x'), char(')')).parse("(x]"),
        Err(mismatch(')', Some(']')))
    );
    assert_eq!(
        between(char('('), char('x'), char(')')).parse("(y)"),
        Err(mismatch('x', Some('y')))
    );
    assert_eq!(
        between(char('('), char('x'), char(')')).parse("x)"),
        Err(mismatch('(', Some('x')))
    );
}

#[test]
fn strip_consumes_the_whitespace_on_both_sides() {
    assert_eq!(strip(char('x')).parse(" \n\t\r x \n y "), ok('x', "y "));
    assert_eq!(char('x').strip().parse("x"), ok('x', ""));
    assert_eq!(
        strip(char('x')).parse("   y"),
        Err(mismatch('x', Some('y')))
    );
    assert_eq!(strip(char('x')).parse("   "), Err(mismatch('x', None)));
    // a no-break space is no whitespace here
    assert_eq!(
        strip(char('x')).parse("\u{a0}x"),
        Err(mismatch('x', Some('\u{a0}')))
    );
}

#[test]
fn classes_hold_their_characters() {
    for c in ['a', 'm', 'z'] {
        assert_eq!(lowercase().parse(&c.to_string()), ok(c, ""));
        assert_eq!(letter().parse(&c.to_string()), ok(c, ""));
        assert_eq!(
            uppercase().parse(&c.to_string()),
            Err(mismatch('Z', Some(c)))
        );
    }
    for c in ['A', 'M', 'Z'] {
        assert_eq!(uppercase().parse(&c.to_string()), ok(c, ""));
        assert_eq!(
            lowercase().parse(&c.to_string()),
            Err(mismatch('z', Some(c)))
        );
    }
    for c in ['0', '5', '9'] {
        assert_eq!(digit().parse(&c.to_string()), ok(c, ""));
        assert_eq!(letter().parse(&c.to_string()), Err(mismatch('z', Some(c))));
    }
    for c in ['`', '{', '@', '[', '/', ':'] {
        assert!(lowercase().parse(&c.to_string()).is_err());
        assert!(uppercase().parse(&c.to_string()).is_err());
        assert!(digit().parse(&c.to_string()).is_err());
    }
    assert_eq!(other().parse("_x"), ok('_', "x"));
    assert_eq!(other().parse("x"), Err(mismatch('_', Some('x'))));
    for c in [' ', '\n', '\t', '\r'] {
        assert_eq!(whitespace().parse(&c.to_string()), ok(c, ""));
    }
    assert_eq!(whitespace().parse("x"), Err(mismatch(' ', Some('x'))));
    assert_eq!(digit().parse(""), Err(mismatch('9', None)));
}

#[test]
fn a_list_expects_its_greatest_character() {
    assert_eq!(list("bca".chars()).parse("x"), Err(mismatch('c', Some('x'))));
    assert_eq!(list("bca".chars()).parse("a"), ok('a', ""));
    assert_eq!(list("".chars()).parse("a"), Err(ParseError::Unit));
    assert_eq!(
        alt(Vec::<Parser<char>>::new().into_iter()).parse("a"),
        Err(ParseError::Unit)
    );
    assert_eq!(
        alt(vec![string("ab"), string("ac")].into_iter()).parse("acd"),
        ok("ac".to_string(), "d")
    );
}

#[test]
fn identifiers_start_with_a_letter() {
    assert_eq!(
        identifier().parse("abc123 rest"),
        ok("abc123".to_string(), "rest")
    );
    assert_eq!(identifier().parse("123abc"), Err(mismatch('z', Some('1'))));
    assert_eq!(
        identifier().parse("  _a1\t\n(x)"),
        ok("_a1".to_string(), "(x)")
    );
    assert_eq!(identifier().parse("x"), ok("x".to_string(), ""));
    assert_eq!(identifier().parse(""), Err(mismatch('z', None)));
    assert_eq!(identifier().parse("   "), Err(mismatch('z', None)));
    assert_eq!(identifier().parse("a-b"), ok("a".to_string(), "-b"));
}

#[test]
fn a_string_matches_its_characters_in_order() {
    assert_eq!(string("abc").parse("abcd"), ok("abc".to_string(), "d"));
    assert_eq!(string("").parse("abcd"), ok("".to_string(), "abcd"));
    assert_eq!(string("abc").parse("abx"), Err(mismatch('c', Some('x'))));
    assert_eq!(string("abc").parse("ab"), Err(mismatch('c', None)));
    assert_eq!(string("abc").parse(" abc"), Err(mismatch('a', Some(' '))));
    assert_eq!(string("né").parse("née"), ok("né".to_string(), "e"));
}

#[test]
fn a_symbol_ignores_the_whitespace_around_it() {
    assert_eq!(symbol("fn").parse("  fn  x"), ok("fn".to_string(), "x"));
    assert_eq!(symbol("fn").parse("fn"), ok("fn".to_string(), ""));
    assert_eq!(symbol("fn").parse("fnx"), ok("fn".to_string(), "x"));
    assert_eq!(symbol("fn").parse("  f n"), Err(mismatch('n', Some(' '))));
    assert_eq!(symbol("").parse("  x"), ok("".to_string(), "x"));
}

fn nesting() -> Parser<u32> {
    Parser::lazy(|| {
        char('(')
            .right(nesting())
            .left(char(')'))
            .map(|depth| depth + 1)
            .or(Parser::pure(0))
    })
}

#[test]
fn lazy_allows_a_rule_to_contain_itself() {
    assert_eq!(nesting().parse("((()))x"), ok(3, "x"));
    assert_eq!(nesting().parse("x"), ok(0, "x"));
    // an unclosed parenthesis: the inner alternative gives way to the empty nesting
    assert_eq!(nesting().parse("(()"), ok(0, "(()"));
}

#[test]
fn lazy_builds_its_parser_when_it_parses() {
    let built = Arc::new(AtomicUsize::new(0));
    let counter = built.clone();
    let parser = Parser::lazy(move || {
        counter.fetch_add(1, Ordering::SeqCst);
        char('a')
    });
    assert_eq!(built.load(Ordering::SeqCst), 0);
    assert_eq!(parser.parse("ab"), ok('a', "b"));
    assert_eq!(built.load(Ordering::SeqCst), 1);
    assert_eq!(parser.parse("b"), Err(mismatch('a', Some('b'))));
    assert_eq!(built.load(Ordering::SeqCst), 2);
}

#[test]
fn a_clone_parses_as_the_parser_it_was_made_from() {
    let parser = identifier().chain(symbol("=")).left(digit().some());
    let copy = parser.clone();
    for input in ["x = 12;", "x 12", "", "  y=1"] {
        assert_eq!(copy.parse(input), parser.parse(input));
    }
    assert_eq!(
        copy.parse("x = 12;"),
        Ok((("x".to_string(), "=".to_string()), ";".to_string()))
    );
}

#[test]
fn a_parser_can_be_run_many_times() {
    let parser = symbol("let").right(identifier());
    assert_eq!(parser.parse("let x"), ok("x".to_string(), ""));
    assert_eq!(parser.parse("let y z"), ok("y".to_string(), "z"));
    assert_eq!(parser.parse("let x"), ok("x".to_string(), ""));
}

#[test]
fn map_passes_failures_through() {
    assert_eq!(char('a').map(|c| c as u32).parse("ab"), ok(97, "b"));
    assert_eq!(
        char('a').map(|c| c as u32).parse("b"),
        Err(mismatch('a', Some('b')))
    );
}
