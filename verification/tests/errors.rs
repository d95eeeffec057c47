use pal::parser::error::ParseError;
use pal::parser::text::{char_range, split_first, text_of};
use pal::parser::generators::text_from;

fn samples() -> Vec<ParseError> {
    let slots = [None, Some('\0'), Some('*'), Some('a'), Some('z'), Some('é'), Some('\u{10ffff}')];
    let mut all = vec![ParseError::Unit];
    for expected in slots {
        for found in slots {
            all.push(ParseError::CharacterMismatch { expected, found });
        }
    }
    all
}

#[test]
fn max_is_the_greater_of_the_derived_order() {
    for a in samples() {
        for b in samples() {
            assert_eq!(a.max(b), Ord::max(a, b));
            assert_eq!(a.at_most(b), a <= b);
        }
    }
}

#[test]
fn the_order_is_total() {
    for a in samples() {
        assert!(a.at_most(a));
        assert_eq!(a.max(a), a);
        for b in samples() {
            assert!(a.at_most(b) || b.at_most(a));
            if a.at_most(b) && b.at_most(a) {
                assert_eq!(a, b);
            }
            assert_eq!(a.max(b), b.max(a));
            for c in samples() {
                if a.at_most(b) && b.at_most(c) {
                    assert!(a.at_most(c));
                }
                assert_eq!(a.max(b).max(c), a.max(b.max(c)));
            }
        }
    }
}

#[test]
fn unit_ranks_below_every_mismatch() {
    for a in samples() {
        assert!(ParseError::Unit.at_most(a));
        assert_eq!(ParseError::Unit.max(a), a);
        assert_eq!(a.max(ParseError::Unit), a);
        if a != ParseError::Unit {
            assert!(!a.at_most(ParseError::Unit));
        }
    }
}

#[test]
fn mismatches_rank_by_what_was_expected_and_then_found() {
    let low = ParseError::CharacterMismatch {
        expected: Some('a'),
        found: Some('z'),
    };
    let high = ParseError::CharacterMismatch {
        expected: Some('b'),
        found: None,
    };
    assert_eq!(low.max(high), high);
    let absent = ParseError::CharacterMismatch {
        expected: Some('a'),
        found: None,
    };
    assert_eq!(absent.max(low), low);
    let generic = ParseError::CharacterMismatch {
        expected: None,
        found: Some('z'),
    };
    assert_eq!(generic.max(absent), absent);
}

#[test]
fn the_first_character_splits_off() {
    assert_eq!(split_first(""), None);
    assert_eq!(split_first("a"), Some(('a', "".to_string())));
    assert_eq!(split_first("abc"), Some(('a', "bc".to_string())));
    assert_eq!(split_first("éa"), Some(('é', "a".to_string())));
}

#[test]
fn ranges_and_texts_are_built_in_order() {
    assert_eq!(char_range(97, 99), vec!['a', 'b', 'c']);
    assert_eq!(char_range(48, 48), vec!['0']);
    assert_eq!(char_range(0, 255).len(), 256);
    assert_eq!(char_range(255, 255), vec!['ÿ']);
    assert_eq!(text_of('a', &vec!['b', 'c']), "abc");
    assert_eq!(text_of('a', &vec![]), "a");
    assert_eq!(text_from(&vec!['x', 'é', 'y']), "xéy");
    assert_eq!(text_from(&vec![]), "");
}
