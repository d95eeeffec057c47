//! The lexical parsers, all derived from the core: single characters and
//! classes of them, literal text, identifiers, and the stripping of
//! whitespace.

use vstd::prelude::*;
use vstd::std_specs::iter::IteratorSpec;
use crate::parser::error::ParseError;
use crate::parser::text::{
    alphanumeric_chars, char_range, digit_chars, greatest, greatest_is_maximum, head, joined_holds,
    letter_chars, lowercase_chars, other_chars, range_holds, skip_all, span,
    span_is_longest_prefix, split_first, take_all, text_of, uppercase_chars, whitespace_chars,
};
use crate::parser::{
    Outcome, Parser, after_failure, between_admits, chain_fails, chain_yields, deep, fn_admits,
    follows, item_stalls, left_admits, listed, many_admits, many_fails, many_yields, map_admits,
    or_admits, outcome_of, passes, pure_admits,
};

verus! {

/// What matching the one character `expected` at the head of `input` comes
/// to.
pub open spec fn match_char(expected: char, input: Seq<char>) -> Outcome<char> {
    if input.len() > 0 && input[0] == expected {
        Ok((expected, input.drop_first()))
    } else {
        Err(ParseError::CharacterMismatch { expected: Some(expected), found: head(input) })
    }
}

/// What matching any one character of `allowed` at the head of `input`
/// comes to. With nothing allowed it fails with `Unit`; else a failure names
/// the greatest of the allowed characters as the one expected.
pub open spec fn one_of(allowed: Seq<char>, input: Seq<char>) -> Outcome<char> {
    if allowed.len() == 0 {
        Err(ParseError::Unit)
    } else if input.len() > 0 && allowed.contains(input[0]) {
        Ok((input[0], input.drop_first()))
    } else {
        Err(ParseError::CharacterMismatch { expected: Some(greatest(allowed)), found: head(input) })
    }
}

/// Outcomes of the alternatives `parsers`, tried in order on the same
/// input: those of the first that succeeds, or the greatest of all their
/// failures; `Unit` where there is no alternative.
pub open spec fn alt_admits<T: 'static>(
    parsers: Seq<Parser<T>>,
    input: Seq<char>,
    outcome: Outcome<T>,
) -> bool
    decreases parsers.len(),
{
    if parsers.len() == 0 {
        outcome == Err::<(T, Seq<char>), ParseError>(ParseError::Unit)
    } else {
        ||| outcome is Ok && parsers[0].admits(input, outcome)
        ||| exists|earlier: ParseError, later: Outcome<T>|
            #![trigger after_failure(earlier, later)]
            parsers[0].admits(input, Err(earlier)) && alt_admits(
                parsers.drop_first(),
                input,
                later,
            ) && outcome == after_failure(earlier, later)
    }
}

/// Matches exactly one [`char`].
pub fn char(allowed: char) -> (p: Parser<char>)
    ensures
        forall|input: Seq<char>, outcome: Outcome<char>|
            p.admits(input, outcome) ==> outcome == match_char(allowed, input),
{
    let matcher = move |input: String| -> (r: Result<(char, String), ParseError>)
        ensures
            outcome_of(r) == match_char(allowed, input@),
        {
            match split_first(input.as_str()) {
                Some((first, rest)) => {
                    if first == allowed {
                        Ok((first, rest))
                    } else {
                        Err(
                            ParseError::CharacterMismatch {
                                expected: Some(allowed),
                                found: Some(first),
                            },
                        )
                    }
                },
                None => Err(ParseError::CharacterMismatch { expected: Some(allowed), found: None }),
            }
        };
    let p = Parser::new(matcher);
    proof {
        assert forall|input: Seq<char>, outcome: Outcome<char>|
            p.admits(input, outcome) implies outcome == match_char(allowed, input) by {
            assert(fn_admits(matcher, input, outcome));
        }
    }
    p
}

/// Turns an iterator of [`Parser<T>`] into a [`Parser<T>`] by applying `or` recursively.
pub fn alt<T: 'static, I: Iterator<Item = Parser<T>>>(allowed: I) -> (p: Parser<T>)
    requires
        allowed.obeys_prophetic_iter_laws(),
        allowed.decrease() is Some,
    ensures
        forall|input: Seq<char>, outcome: Outcome<T>|
            p.admits(input, outcome) ==> alt_admits(allowed.remaining(), input, outcome),
{
    let ghost all = allowed.remaining();
    let mut source = allowed;
    let mut parsers: Vec<Parser<T>> = Vec::new();
    loop
        invariant
            source.obeys_prophetic_iter_laws(),
            source.decrease() is Some,
            all == parsers@ + source.remaining(),
        ensures
            parsers@ == all,
        decreases source.decrease()->0,
    {
        match source.next() {
            Some(parser) => {
                proof {
                    assert(parsers@.push(parser) + source.remaining() =~= all);
                }
                parsers.push(parser);
            },
            None => {
                proof {
                    assert(parsers@ + source.remaining() =~= parsers@);
                }
                break ;
            },
        }
    }
    let mut p: Parser<T> = Parser::empty(ParseError::Unit);
    proof {
        assert(all.skip(parsers@.len() as int) =~= Seq::<Parser<T>>::empty());
    }
    while parsers.len() > 0
        invariant
            parsers@ == all.take(parsers@.len() as int),
            parsers@.len() <= all.len(),
            forall|input: Seq<char>, outcome: Outcome<T>| #[trigger]
                p.admits(input, outcome) ==> alt_admits(
                    all.skip(parsers@.len() as int),
                    input,
                    outcome,
                ),
        decreases parsers.len(),
    {
        let ghost rest = p;
        let ghost count = parsers@.len();
        let first = parsers.pop().unwrap();
        p = first.or(p);
        proof {
            let tail = all.skip(count as int);
            let whole = all.skip(count - 1);
            assert(whole[0] == first);
            assert(whole.drop_first() =~= tail);
            assert(parsers@ =~= all.take(count - 1));
            assert forall|input: Seq<char>, outcome: Outcome<T>| #[trigger]
                p.admits(input, outcome) implies alt_admits(whole, input, outcome) by {
                assert(or_admits(first, rest, input, outcome));
                if !(outcome is Ok && first.admits(input, outcome)) {
                    let (earlier, later) = choose|earlier: ParseError, later: Outcome<T>|
                        #![trigger first.admits(input, Err(earlier)), rest.admits(input, later)]
                        first.admits(input, Err(earlier)) && rest.admits(input, later) && outcome
                            == after_failure(earlier, later);
                    assert(whole[0].admits(input, Err(earlier)));
                    assert(alt_admits(whole.drop_first(), input, later));
                    assert(outcome == after_failure(earlier, later));
                }
            }
        }
    }
    proof {
        assert(all.skip(0) =~= all);
    }
    p
}

/// Alternatives that each match one character of `chars`, in order, come to
/// matching any one of `chars`.
proof fn alt_of_chars(
    parsers: Seq<Parser<char>>,
    chars: Seq<char>,
    input: Seq<char>,
    outcome: Outcome<char>,
)
    requires
        parsers.len() == chars.len(),
        forall|k: int, given: Seq<char>, found: Outcome<char>|
            0 <= k < parsers.len() && #[trigger] parsers[k].admits(given, found) ==> found
                == match_char(chars[k], given),
        alt_admits(parsers, input, outcome),
    ensures
        outcome == one_of(chars, input),
    decreases parsers.len(),
{
    if parsers.len() > 0 {
        let first = match_char(chars[0], input);
        let later_parsers = parsers.drop_first();
        let later_chars = chars.drop_first();
        assert forall|x: char| chars.contains(x) <==> (chars[0] == x || later_chars.contains(x)) by {
            if chars.contains(x) {
                let k = choose|k: int| 0 <= k < chars.len() && chars[k] == x;
                if k > 0 {
                    assert(later_chars[k - 1] == x);
                }
            }
            if later_chars.contains(x) {
                let k = choose|k: int| 0 <= k < later_chars.len() && later_chars[k] == x;
                assert(chars[k + 1] == x);
            }
        }
        if outcome is Ok && parsers[0].admits(input, outcome) {
        } else {
            let (earlier, later) = choose|earlier: ParseError, later: Outcome<char>|
                #![trigger after_failure(earlier, later)]
                parsers[0].admits(input, Err(earlier)) && alt_admits(later_parsers, input, later)
                    && outcome == after_failure(earlier, later);
            assert forall|k: int, given: Seq<char>, found: Outcome<char>|
                0 <= k < later_parsers.len() && #[trigger] later_parsers[k].admits(
                    given,
                    found,
                ) implies found == match_char(later_chars[k], given) by {
                assert(later_parsers[k] == parsers[k + 1]);
                assert(later_chars[k] == chars[k + 1]);
            }
            alt_of_chars(later_parsers, later_chars, input, later);
            assert(Err::<(char, Seq<char>), ParseError>(earlier) == first);
            if later_chars.len() > 0 {
                greatest_is_maximum(later_chars);
            }
        }
    }
}

/// Turns an iterator of [`char`] into a [`Parser<char>`] by applying `or` recursively.
pub fn list<I: Iterator<Item = char>>(allowed: I) -> (p: Parser<char>)
    requires
        allowed.obeys_prophetic_iter_laws(),
        allowed.decrease() is Some,
    ensures
        forall|input: Seq<char>, outcome: Outcome<char>|
            p.admits(input, outcome) ==> outcome == one_of(allowed.remaining(), input),
{
    let ghost all = allowed.remaining();
    let mut source = allowed;
    let mut parsers: Vec<Parser<char>> = Vec::new();
    let ghost mut seen: Seq<char> = Seq::empty();
    loop
        invariant
            source.obeys_prophetic_iter_laws(),
            source.decrease() is Some,
            all == seen + source.remaining(),
            parsers@.len() == seen.len(),
            forall|k: int, given: Seq<char>, found: Outcome<char>|
                0 <= k < parsers@.len() && #[trigger] parsers@[k].admits(given, found) ==> found
                    == match_char(seen[k], given),
        ensures
            seen == all,
            parsers@.len() == seen.len(),
            forall|k: int, given: Seq<char>, found: Outcome<char>|
                0 <= k < parsers@.len() && #[trigger] parsers@[k].admits(given, found) ==> found
                    == match_char(seen[k], given),
        decreases source.decrease()->0,
    {
        match source.next() {
            Some(one) => {
                proof {
                    assert(seen.push(one) + source.remaining() =~= all);
                    seen = seen.push(one);
                }
                parsers.push(char(one));
            },
            None => {
                proof {
                    assert(seen + source.remaining() =~= seen);
                }
                break ;
            },
        }
    }
    let ghost built = parsers@;
    let p = alt(parsers.into_iter());
    proof {
        assert forall|input: Seq<char>, outcome: Outcome<char>|
            p.admits(input, outcome) implies outcome == one_of(all, input) by {
            alt_of_chars(built, all, input, outcome);
        }
    }
    p
}

/// An alternation of two parsers that each match one character of a class
/// matches one character of the two classes put together.
proof fn or_of_classes(
    first: Parser<char>,
    second: Parser<char>,
    a: Seq<char>,
    b: Seq<char>,
    input: Seq<char>,
    outcome: Outcome<char>,
)
    requires
        a.len() > 0,
        b.len() > 0,
        forall|given: Seq<char>, found: Outcome<char>| #[trigger]
            first.admits(given, found) ==> found == one_of(a, given),
        forall|given: Seq<char>, found: Outcome<char>| #[trigger]
            second.admits(given, found) ==> found == one_of(b, given),
        or_admits(first, second, input, outcome),
    ensures
        outcome == one_of(a + b, input),
{
    joined_holds(a, b);
    if input.len() > 0 {
        assert((a + b).contains(input[0]) <==> a.contains(input[0]) || b.contains(input[0]));
    }
}

/// Generates a parser for whitespace characters.
pub fn whitespace() -> (p: Parser<char>)
    ensures
        forall|input: Seq<char>, outcome: Outcome<char>|
            p.admits(input, outcome) ==> outcome == one_of(whitespace_chars(), input),
{
    let chars = vec![' ', '\n', '\t', '\r'];
    assert(chars@ =~= whitespace_chars());
    list(chars.into_iter())
}

/// Generates a parser that matches on all lowercase alphabetic characters.
pub fn lowercase() -> (p: Parser<char>)
    ensures
        forall|input: Seq<char>, outcome: Outcome<char>|
            p.admits(input, outcome) ==> outcome == one_of(lowercase_chars(), input),
{
    assert(97u8 as char == 'a' && 122u8 as char == 'z');
    list(char_range(97, 122).into_iter())
}

/// Generates a parser that matches on all uppercase alphabetic characters.
pub fn uppercase() -> (p: Parser<char>)
    ensures
        forall|input: Seq<char>, outcome: Outcome<char>|
            p.admits(input, outcome) ==> outcome == one_of(uppercase_chars(), input),
{
    assert(65u8 as char == 'A' && 90u8 as char == 'Z');
    list(char_range(65, 90).into_iter())
}

/// Generates a parser that matches on all non-alphabetic valid identifier characters.
pub fn other() -> (p: Parser<char>)
    ensures
        forall|input: Seq<char>, outcome: Outcome<char>|
            p.admits(input, outcome) ==> outcome == one_of(other_chars(), input),
{
    let chars = vec!['_'];
    assert(chars@ =~= other_chars());
    list(chars.into_iter())
}

/// Generates a parser that matches on any letter (or non-alphabetic identifier character).
pub fn letter() -> (p: Parser<char>)
    ensures
        forall|input: Seq<char>, outcome: Outcome<char>|
            p.admits(input, outcome) ==> outcome == one_of(letter_chars(), input),
{
    let lower = lowercase();
    let upper = uppercase();
    let under = other();
    let cased = lower.or(upper);
    let p = cased.or(under);
    proof {
        range_holds('a', 'z');
        range_holds('A', 'Z');
        assert forall|input: Seq<char>, outcome: Outcome<char>| #[trigger]
            cased.admits(input, outcome) implies outcome == one_of(
            lowercase_chars() + uppercase_chars(),
            input,
        ) by {
            or_of_classes(lower, upper, lowercase_chars(), uppercase_chars(), input, outcome);
        }
        assert forall|input: Seq<char>, outcome: Outcome<char>|
            p.admits(input, outcome) implies outcome == one_of(letter_chars(), input) by {
            or_of_classes(
                cased,
                under,
                lowercase_chars() + uppercase_chars(),
                other_chars(),
                input,
                outcome,
            );
        }
    }
    p
}

/// Generates a parser that matches on all numerical digits.
pub fn digit() -> (p: Parser<char>)
    ensures
        forall|input: Seq<char>, outcome: Outcome<char>|
            p.admits(input, outcome) ==> outcome == one_of(digit_chars(), input),
{
    assert(48u8 as char == '0' && 57u8 as char == '9');
    list(char_range(48, 57).into_iter())
}

/// Generates a parser that matches on all alphanumeric characters (or non-alphabetic identifier
/// characters).
pub fn alphanum() -> (p: Parser<char>)
    ensures
        forall|input: Seq<char>, outcome: Outcome<char>|
            p.admits(input, outcome) ==> outcome == one_of(alphanumeric_chars(), input),
{
    let letters = letter();
    let digits = digit();
    let p = letters.or(digits);
    proof {
        range_holds('a', 'z');
        range_holds('0', '9');
        assert forall|input: Seq<char>, outcome: Outcome<char>|
            p.admits(input, outcome) implies outcome == one_of(alphanumeric_chars(), input) by {
            or_of_classes(letters, digits, letter_chars(), digit_chars(), input, outcome);
        }
    }
    p
}

/// Repeating a parser that matches one character of a class never fails: it
/// yields the longest prefix of characters of the class and leaves the rest.
pub proof fn many_of_class(
    item: Parser<char>,
    class: Seq<char>,
    input: Seq<char>,
    outcome: Outcome<Seq<char>>,
)
    requires
        class.len() > 0,
        forall|given: Seq<char>, found: Outcome<char>| #[trigger]
            item.admits(given, found) ==> found == one_of(class, given),
        many_admits(item, input, outcome),
    ensures
        outcome == Ok::<(Seq<char>, Seq<char>), ParseError>(
            (take_all(class, input), skip_all(class, input)),
        ),
    decreases input.len(),
{
    match outcome {
        Ok((values, rest)) => {
            if values.len() == 0 {
                let error = choose|error: ParseError| #[trigger] item.admits(input, Err(error));
                assert(span(class, input) == 0);
                assert(input.take(0) =~= values);
                assert(input.skip(0) =~= rest);
            } else {
                let mid = choose|mid: Seq<char>| #[trigger]
                    item.admits(input, Ok((values[0], mid))) && mid.len() < input.len()
                        && many_yields(item, mid, values.drop_first(), rest);
                many_of_class(item, class, mid, Ok((values.drop_first(), rest)));
                let n = span(class, mid) as int;
                span_is_longest_prefix(class, mid);
                assert(mid == input.drop_first());
                assert(span(class, input) == n + 1);
                assert(values =~= seq![values[0]] + values.drop_first());
                assert(input.take(n + 1) =~= seq![input[0]] + mid.take(n));
                assert(input.skip(n + 1) =~= mid.skip(n));
            }
        },
        Err(error) => {
            if error == ParseError::Unit && item_stalls(item, input) {
                let (value, rest) = choose|value: char, rest: Seq<char>| #[trigger]
                    item.admits(input, Ok((value, rest))) && rest.len() >= input.len();
            } else {
                let (value, mid) = choose|value: char, mid: Seq<char>| #[trigger]
                    item.admits(input, Ok((value, mid))) && mid.len() < input.len() && many_fails(
                        item,
                        mid,
                        error,
                    );
                many_of_class(item, class, mid, Err(error));
            }
        },
    }
}

/// Generates a [`Parser`] that expects 3 matches in a row, and drops the first and the last.
pub fn between<T: 'static, I: 'static, O: 'static>(a: Parser<T>, b: Parser<I>, c: Parser<O>) -> (p:
    Parser<I>)
    ensures
        forall|input: Seq<char>, outcome: Outcome<I>|
            p.admits(input, outcome) ==> between_admits(a, b, c, input, outcome),
{
    b.between(a, c)
}

/// `input` without its leading whitespace.
pub open spec fn trimmed(input: Seq<char>) -> Seq<char> {
    skip_all(whitespace_chars(), input)
}

/// Outcomes of `inner` with the whitespace on both sides of it consumed:
/// `inner` runs on the input without its leading whitespace, and the
/// whitespace that follows what it consumed is dropped from the remainder.
pub open spec fn strip_admits<T: 'static>(
    inner: Parser<T>,
    input: Seq<char>,
    outcome: Outcome<T>,
) -> bool {
    match outcome {
        Ok((value, rest)) => exists|to: Seq<char>| #[trigger]
            inner.admits(trimmed(input), Ok((value, to))) && rest == trimmed(to),
        Err(error) => inner.admits(trimmed(input), Err(error)),
    }
}

/// Generates a parser that ignores whitespace characters.
pub fn strip<T: 'static>(p: Parser<T>) -> (stripped: Parser<T>)
    ensures
        forall|input: Seq<char>, outcome: Outcome<T>|
            stripped.admits(input, outcome) ==> strip_admits(p, input, outcome),
{
    let blank = whitespace();
    let blank_again = whitespace();
    let before = blank.many();
    let after = blank_again.many();
    let stripped = between(before, p, after);
    proof {
        let class = whitespace_chars();
        assert(class.len() > 0);
        assert forall|given: Seq<char>, rest: Seq<char>| #[trigger]
            passes(before, given, rest) implies rest == trimmed(given) by {
            let value = choose|value: Vec<char>| #[trigger] before.admits(given, Ok((value, rest)));
            many_of_class(blank, class, given, listed(Ok((value, rest))));
        }
        assert forall|given: Seq<char>, rest: Seq<char>| #[trigger]
            passes(after, given, rest) implies rest == trimmed(given) by {
            let value = choose|value: Vec<char>| #[trigger] after.admits(given, Ok((value, rest)));
            many_of_class(blank_again, class, given, listed(Ok((value, rest))));
        }
        assert forall|given: Seq<char>, error: ParseError| !#[trigger] before.admits(
            given,
            Err(error),
        ) by {
            if before.admits(given, Err(error)) {
                many_of_class(
                    blank,
                    class,
                    given,
                    listed(Err::<(Vec<char>, Seq<char>), ParseError>(error)),
                );
            }
        }
        assert forall|given: Seq<char>, error: ParseError| !#[trigger] after.admits(
            given,
            Err(error),
        ) by {
            if after.admits(given, Err(error)) {
                many_of_class(
                    blank_again,
                    class,
                    given,
                    listed(Err::<(Vec<char>, Seq<char>), ParseError>(error)),
                );
            }
        }
        assert forall|input: Seq<char>, outcome: Outcome<T>|
            stripped.admits(input, outcome) implies strip_admits(p, input, outcome) by {
            assert(between_admits(before, p, after, input, outcome));
            match outcome {
                Ok((value, rest)) => {
                    let (from, to) = choose|from: Seq<char>, to: Seq<char>|
                        passes(before, input, from) && #[trigger] p.admits(from, Ok((value, to)))
                            && passes(after, to, rest);
                    assert(p.admits(trimmed(input), Ok((value, to))));
                },
                Err(error) => {
                    let from = choose|from: Seq<char>| #[trigger]
                        passes(before, input, from) && left_admits(p, after, from, Err(error));
                    assert(chain_fails(p, after, from, error));
                },
            }
        }
    }
    stripped
}

impl<T: 'static> Parser<T> {
    /// Generates a parser that runs `self` between whitespace, which it ignores.
    pub fn strip(self) -> (stripped: Parser<T>)
        ensures
            forall|input: Seq<char>, outcome: Outcome<T>|
                stripped.admits(input, outcome) ==> strip_admits(self, input, outcome),
    {
        strip(self)
    }
}

/// What parsing an identifier comes to: after the leading whitespace, one
/// letter and the longest run of alphanumeric characters that follows it,
/// with the whitespace after them dropped from the remainder.
pub open spec fn identifier_outcome(input: Seq<char>) -> Outcome<Seq<char>> {
    match one_of(letter_chars(), trimmed(input)) {
        Ok((first, after)) => Ok(
            (
                seq![first] + take_all(alphanumeric_chars(), after),
                trimmed(skip_all(alphanumeric_chars(), after)),
            ),
        ),
        Err(error) => Err(error),
    }
}

/// Generates a parser that matches on any possible identifier.
pub fn identifier() -> (p: Parser<String>)
    ensures
        follows(p, |input: Seq<char>| identifier_outcome(input)),
{
    let first = letter();
    let following = alphanum();
    let more = following.many();
    let chained = first.chain(more);
    let stripped = strip(chained);
    let join = |pair: (char, Vec<char>)| -> (text: String)
        ensures
            text@ == seq![pair.0] + pair.1@,
        { text_of(pair.0, &pair.1) };
    let p = stripped.map(join);
    proof {
        range_holds('a', 'z');
        assert(letter_chars().len() > 0);
        assert(alphanumeric_chars().len() > 0);
        assert forall|input: Seq<char>, outcome: Outcome<String>|
            p.admits(input, outcome) implies deep(outcome) == identifier_outcome(input) by {
            assert(map_admits(stripped, join, input, outcome));
            let from = trimmed(input);
            match outcome {
                Ok((text, rest)) => {
                    let pair = choose|pair: (char, Vec<char>)| #[trigger]
                        stripped.admits(input, Ok((pair, rest))) && call_ensures(
                            join,
                            (pair,),
                            text,
                        );
                    assert(strip_admits(chained, input, Ok((pair, rest))));
                    let to = choose|to: Seq<char>| #[trigger]
                        chained.admits(from, Ok((pair, to))) && rest == trimmed(to);
                    assert(chain_yields(first, more, from, pair.0, pair.1, to));
                    let mid = choose|mid: Seq<char>| #[trigger]
                        first.admits(from, Ok((pair.0, mid))) && more.admits(
                            mid,
                            Ok((pair.1, to)),
                        );
                    many_of_class(
                        following,
                        alphanumeric_chars(),
                        mid,
                        listed(Ok((pair.1, to))),
                    );
                },
                Err(error) => {
                    assert(strip_admits(chained, input, Err(error)));
                    assert(chain_fails(first, more, from, error));
                    if !first.admits(from, Err(error)) {
                        let mid = choose|mid: Seq<char>| #[trigger]
                            passes(first, from, mid) && more.admits(mid, Err(error));
                        many_of_class(
                            following,
                            alphanumeric_chars(),
                            mid,
                            listed(Err::<(Vec<char>, Seq<char>), ParseError>(error)),
                        );
                    }
                },
            }
        }
    }
    p
}

/// How many characters at the start of `input` are those of `literal`, in
/// order.
pub open spec fn matching(literal: Seq<char>, input: Seq<char>) -> nat
    decreases literal.len(),
{
    if literal.len() > 0 && input.len() > 0 && literal[0] == input[0] {
        1 + matching(literal.drop_first(), input.drop_first())
    } else {
        0
    }
}

/// What matching the text `literal` at the start of `input` comes to: the
/// text and what follows it, or the mismatch at the first character of
/// `literal` that `input` does not have in its place.
pub open spec fn literal_outcome(literal: Seq<char>, input: Seq<char>) -> Outcome<Seq<char>> {
    let matched = matching(literal, input) as int;
    if matched == literal.len() {
        Ok((literal, input.skip(matched)))
    } else {
        Err(
            ParseError::CharacterMismatch {
                expected: Some(literal[matched]),
                found: head(input.skip(matched)),
            },
        )
    }
}

/// The characters that match are at most those of the literal and at most
/// those of the input.
pub proof fn matching_is_bounded(literal: Seq<char>, input: Seq<char>)
    ensures
        matching(literal, input) <= literal.len(),
        matching(literal, input) <= input.len(),
    decreases literal.len(),
{
    if literal.len() > 0 && input.len() > 0 && literal[0] == input[0] {
        matching_is_bounded(literal.drop_first(), input.drop_first());
    }
}

/// Generates a parser that matches on one exact given text. This can be used to parse
/// for specific keywords like `if`, `while` and similar. Does not ignore whitespace.
pub fn string(input: &str) -> (p: Parser<String>)
    ensures
        follows(p, |given: Seq<char>| literal_outcome(input@, given)),
    decreases input@.len(),
{
    match split_first(input) {
        Some((next, rest)) => {
            let first = char(next);
            let following = string(rest.as_str());
            let chained = first.chain(following);
            let join = |pair: (char, String)| -> (text: String)
                ensures
                    text@ == seq![pair.0] + pair.1@,
                {
                    let mut text = String::new();
                    text.push(pair.0);
                    text.append(pair.1.as_str());
                    assert(text@ =~= seq![pair.0] + pair.1@);
                    text
                };
            let p = chained.map(join);
            proof {
                let literal = input@;
                let later = rest@;
                assert forall|given: Seq<char>, outcome: Outcome<String>|
                    p.admits(given, outcome) implies deep(outcome) == literal_outcome(
                    literal,
                    given,
                ) by {
                    assert(map_admits(chained, join, given, outcome));
                    let after = given.drop_first();
                    matching_is_bounded(later, after);
                    match outcome {
                        Ok((text, left)) => {
                            let pair = choose|pair: (char, String)| #[trigger]
                                chained.admits(given, Ok((pair, left))) && call_ensures(
                                    join,
                                    (pair,),
                                    text,
                                );
                            assert(chain_yields(first, following, given, pair.0, pair.1, left));
                            let mid = choose|mid: Seq<char>| #[trigger]
                                first.admits(given, Ok((pair.0, mid))) && following.admits(
                                    mid,
                                    Ok((pair.1, left)),
                                );
                            assert(deep(Ok((pair.1, left))) == literal_outcome(later, mid));
                            let matched = matching(later, after) as int;
                            assert(text@ =~= literal);
                            assert(given.skip(matched + 1) =~= after.skip(matched));
                        },
                        Err(error) => {
                            assert(chain_fails(first, following, given, error));
                            if !first.admits(given, Err(error)) {
                                let mid = choose|mid: Seq<char>| #[trigger]
                                    passes(first, given, mid) && following.admits(
                                        mid,
                                        Err(error),
                                    );
                                let value = choose|value: char| #[trigger]
                                    first.admits(given, Ok((value, mid)));
                                assert(deep::<String>(Err(error)) == literal_outcome(later, mid));
                                let matched = matching(later, after) as int;
                                assert(given.skip(matched + 1) =~= after.skip(matched));
                                assert(literal[matched + 1] == later[matched]);
                            } else {
                                assert(given.skip(0) =~= given);
                            }
                        },
                    }
                }
            }
            p
        },
        None => {
            let nothing = String::new();
            let p = Parser::pure(nothing);
            proof {
                assert forall|given: Seq<char>, outcome: Outcome<String>|
                    p.admits(given, outcome) implies deep(outcome) == literal_outcome(
                    input@,
                    given,
                ) by {
                    assert(pure_admits(nothing, given, outcome));
                    assert(given.skip(0) =~= given);
                    assert(outcome->Ok_0.0@ =~= input@);
                }
            }
            p
        },
    }
}

/// A literal that matches leaves what follows it: the input is the literal
/// and then the remainder.
pub proof fn literal_consumes(literal: Seq<char>, input: Seq<char>)
    requires
        literal_outcome(literal, input) is Ok,
    ensures
        literal_outcome(literal, input) == Ok::<(Seq<char>, Seq<char>), ParseError>(
            (literal, input.skip(literal.len() as int)),
        ),
        literal.len() <= input.len(),
        input.take(literal.len() as int) == literal,
{
    matching_is_bounded(literal, input);
    matching_is_prefix(literal, input);
    assert(input.take(literal.len() as int) =~= literal);
}

/// The characters that match are the same in the literal and in the input.
pub proof fn matching_is_prefix(literal: Seq<char>, input: Seq<char>)
    ensures
        forall|k: int| 0 <= k < matching(literal, input) ==> literal[k] == input[k],
    decreases literal.len(),
{
    if literal.len() > 0 && input.len() > 0 && literal[0] == input[0] {
        matching_is_prefix(literal.drop_first(), input.drop_first());
        matching_is_bounded(literal.drop_first(), input.drop_first());
        assert forall|k: int| 0 <= k < matching(literal, input) implies literal[k] == input[k] by {
            if k > 0 {
                assert(literal[k] == literal.drop_first()[k - 1]);
                assert(input[k] == input.drop_first()[k - 1]);
            }
        }
    }
}

/// A symbol that matches consumes at least its literal: what it leaves is
/// shorter than the input by the length of the literal or more.
pub proof fn symbol_consumes(literal: Seq<char>, input: Seq<char>)
    requires
        symbol_outcome(literal, input) is Ok,
    ensures
        symbol_outcome(literal, input)->Ok_0.0 == literal,
        symbol_outcome(literal, input)->Ok_0.1.len() + literal.len() <= input.len(),
{
    literal_consumes(literal, trimmed(input));
    span_is_longest_prefix(whitespace_chars(), input);
    let rest = trimmed(input).skip(literal.len() as int);
    span_is_longest_prefix(whitespace_chars(), rest);
}

/// What matching the text `literal` between whitespace comes to.
pub open spec fn symbol_outcome(literal: Seq<char>, input: Seq<char>) -> Outcome<Seq<char>> {
    match literal_outcome(literal, trimmed(input)) {
        Ok((text, rest)) => Ok((text, trimmed(rest))),
        Err(error) => Err(error),
    }
}

/// `inner` between the symbols `open` and `close`.
pub open spec fn enclosed<T>(
    open: Seq<char>,
    inner: spec_fn(Seq<char>) -> Outcome<T>,
    close: Seq<char>,
    input: Seq<char>,
) -> Outcome<T> {
    match symbol_outcome(open, input) {
        Ok((_, from)) => match inner(from) {
            Ok((value, to)) => match symbol_outcome(close, to) {
                Ok((_, rest)) => Ok((value, rest)),
                Err(error) => Err(error),
            },
            Err(error) => Err(error),
        },
        Err(error) => Err(error),
    }
}

/// Generates a parser that matches on one exact given text. This can be used to parse
/// for specific keywords like `if`, `while` and similar. Ignores whitespace.
pub fn symbol(input: &str) -> (p: Parser<String>)
    ensures
        follows(p, |given: Seq<char>| symbol_outcome(input@, given)),
{
    let exact = string(input);
    let p = strip(exact);
    proof {
        assert forall|given: Seq<char>, outcome: Outcome<String>|
            p.admits(given, outcome) implies deep(outcome) == symbol_outcome(input@, given) by {
            assert(strip_admits(exact, given, outcome));
            match outcome {
                Ok((text, rest)) => {
                    let to = choose|to: Seq<char>| #[trigger]
                        exact.admits(trimmed(given), Ok((text, to))) && rest == trimmed(to);
                    assert(deep(Ok((text, to))) == literal_outcome(input@, trimmed(given)));
                },
                Err(error) => {
                    assert(deep::<String>(Err(error)) == literal_outcome(input@, trimmed(given)));
                },
            }
        }
    }
    p
}

/// The text made of `chars`.
pub fn text_from(chars: &Vec<char>) -> (text: String)
    ensures
        text@ == chars@,
{
    let mut text = String::new();
    let mut at: usize = 0;
    while at < chars.len()
        invariant
            at <= chars.len(),
            text@ == chars@.take(at as int),
        decreases chars.len() - at,
    {
        text.push(chars[at]);
        assert(chars@.take(at as int).push(chars@[at as int]) =~= chars@.take(at as int + 1));
        at = at + 1;
    }
    assert(chars@.take(chars.len() as int) =~= chars@);
    text
}

/// Outcomes of a parser of characters, with the characters made into text.
pub open spec fn qualify_admits(
    inner: Parser<Vec<char>>,
    input: Seq<char>,
    outcome: Outcome<String>,
) -> bool {
    exists|found: Outcome<Vec<char>>| #[trigger]
        inner.admits(input, found) && listed(found) == deep(outcome)
}

impl Parser<Vec<char>> {
    /// Turns a parser of characters into a parser of the text that they make.
    pub fn qualify(self) -> (p: Parser<String>)
        ensures
            forall|input: Seq<char>, outcome: Outcome<String>|
                p.admits(input, outcome) ==> qualify_admits(self, input, outcome),
    {
        let collect = |chars: Vec<char>| -> (text: String)
            ensures
                text@ == chars@,
            { text_from(&chars) };
        let p = self.map(collect);
        proof {
            assert forall|input: Seq<char>, outcome: Outcome<String>|
                p.admits(input, outcome) implies qualify_admits(self, input, outcome) by {
                assert(map_admits(self, collect, input, outcome));
                match outcome {
                    Ok((text, rest)) => {
                        let chars = choose|chars: Vec<char>| #[trigger]
                            self.admits(input, Ok((chars, rest))) && call_ensures(
                                collect,
                                (chars,),
                                text,
                            );
                        assert(listed(Ok::<(Vec<char>, Seq<char>), ParseError>((chars, rest)))
                            == deep(outcome));
                    },
                    Err(error) => {
                        assert(listed(Err::<(Vec<char>, Seq<char>), ParseError>(error)) == deep(
                            outcome,
                        ));
                    },
                }
            }
        }
        p
    }
}

/// The longest run of characters of `class` at the start of `input`, and
/// what follows it.
pub open spec fn run_of(class: Seq<char>, input: Seq<char>) -> Outcome<Seq<char>> {
    Ok((take_all(class, input), skip_all(class, input)))
}

/// An alternation of two parsers of one character of a class is a parser
/// of one character of the two classes put together.
pub proof fn or_class_follows(
    either: Parser<char>,
    first: Parser<char>,
    second: Parser<char>,
    a: Seq<char>,
    b: Seq<char>,
)
    requires
        a.len() > 0,
        b.len() > 0,
        forall|input: Seq<char>, outcome: Outcome<char>| #[trigger]
            first.admits(input, outcome) ==> outcome == one_of(a, input),
        forall|input: Seq<char>, outcome: Outcome<char>| #[trigger]
            second.admits(input, outcome) ==> outcome == one_of(b, input),
        forall|input: Seq<char>, outcome: Outcome<char>| #[trigger]
            either.admits(input, outcome) ==> or_admits(first, second, input, outcome),
    ensures
        forall|input: Seq<char>, outcome: Outcome<char>| #[trigger]
            either.admits(input, outcome) ==> outcome == one_of(a + b, input),
{
    assert forall|input: Seq<char>, outcome: Outcome<char>| #[trigger]
        either.admits(input, outcome) implies outcome == one_of(a + b, input) by {
        or_of_classes(first, second, a, b, input, outcome);
    }
}

/// A repetition of a parser of one character of `class` computes the
/// longest run of such characters.
pub proof fn run_follows(repeated: Parser<Vec<char>>, item: Parser<char>, class: Seq<char>)
    requires
        class.len() > 0,
        forall|input: Seq<char>, outcome: Outcome<char>| #[trigger]
            item.admits(input, outcome) ==> outcome == one_of(class, input),
        forall|input: Seq<char>, outcome: Outcome<Vec<char>>| #[trigger]
            repeated.admits(input, outcome) ==> many_admits(item, input, listed(outcome)),
    ensures
        follows(repeated, |input: Seq<char>| run_of(class, input)),
{
    assert forall|input: Seq<char>, outcome: Outcome<Vec<char>>| #[trigger]
        repeated.admits(input, outcome) implies deep(outcome) == run_of(class, input) by {
        many_of_class(item, class, input, listed(outcome));
        if outcome is Ok {
            assert(outcome->Ok_0.0.deep_view() =~= outcome->Ok_0.0@);
        }
    }
}

/// Characters made into text compute what the characters compute.
pub proof fn qualify_follows(
    text: Parser<String>,
    chars: Parser<Vec<char>>,
    f: spec_fn(Seq<char>) -> Outcome<Seq<char>>,
)
    requires
        follows(chars, f),
        forall|input: Seq<char>, outcome: Outcome<String>| #[trigger]
            text.admits(input, outcome) ==> qualify_admits(chars, input, outcome),
    ensures
        follows(text, f),
{
    assert forall|input: Seq<char>, outcome: Outcome<String>| #[trigger]
        text.admits(input, outcome) implies deep(outcome) == f(input) by {
        let found = choose|found: Outcome<Vec<char>>| #[trigger]
            chars.admits(input, found) && listed(found) == deep(outcome);
        if found is Ok {
            assert(found->Ok_0.0.deep_view() =~= found->Ok_0.0@);
        }
    }
}

} // verus!
