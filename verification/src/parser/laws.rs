//! What holds of the combinators together: the identities of alternation,
//! and when repetitions succeed and fail.

use vstd::prelude::*;
use crate::parser::error::{ParseError, unit_is_least};
use crate::parser::generators::{match_char, one_of};
use crate::parser::{
    Outcome, Parser, after_failure, chain_admits, chain_fails, item_fails, item_stalls,
    many_admits, many_fails, many_yields, maybe_admits, or_admits, passes, pure_admits,
    some_admits,
};

verus! {

/// Whether `parser` consumes input whenever it succeeds: what it leaves is
/// shorter than what it was given.
pub open spec fn productive<T: 'static>(parser: Parser<T>) -> bool {
    forall|input: Seq<char>, value: T, rest: Seq<char>| #[trigger]
        parser.admits(input, Ok((value, rest))) ==> rest.len() < input.len()
}

/// Whether every outcome of `parser` on `input` is `outcome`.
pub open spec fn decided<T: 'static>(
    parser: Parser<T>,
    input: Seq<char>,
    outcome: Outcome<T>,
) -> bool {
    forall|other: Outcome<T>| #[trigger] parser.admits(input, other) ==> other == outcome
}

/// An alternation backtracks: an outcome that is not a success of the first
/// branch is what the second branch comes to on the same, whole input, after
/// a failure of the first.
pub proof fn or_backtracks<T: 'static>(
    first: Parser<T>,
    second: Parser<T>,
    input: Seq<char>,
    outcome: Outcome<T>,
)
    requires
        or_admits(first, second, input, outcome),
        !(outcome is Ok && first.admits(input, outcome)),
    ensures
        exists|earlier: ParseError, later: Outcome<T>|
            #![trigger first.admits(input, Err(earlier)), second.admits(input, later)]
            first.admits(input, Err(earlier)) && second.admits(input, later) && outcome
                == after_failure(earlier, later),
        outcome is Ok ==> second.admits(input, outcome),
{
    let (earlier, later) = choose|earlier: ParseError, later: Outcome<T>|
        #![trigger first.admits(input, Err(earlier)), second.admits(input, later)]
        first.admits(input, Err(earlier)) && second.admits(input, later) && outcome
            == after_failure(earlier, later);
    if outcome is Ok {
        assert(later == outcome);
    }
}

/// Where the first branch succeeds on an input and cannot fail there, the
/// alternation comes to what the first branch comes to.
pub proof fn or_prefers_first<T: 'static>(
    first: Parser<T>,
    second: Parser<T>,
    input: Seq<char>,
    outcome: Outcome<T>,
)
    requires
        or_admits(first, second, input, outcome),
        !item_fails(first, input),
    ensures
        outcome is Ok,
        first.admits(input, outcome),
{
}

/// Where both branches are decided on an input, so is the alternation: the
/// first success, or the greater of the two failures.
pub proof fn or_of_decided<T: 'static>(
    first: Parser<T>,
    second: Parser<T>,
    input: Seq<char>,
    a: Outcome<T>,
    b: Outcome<T>,
    outcome: Outcome<T>,
)
    requires
        decided(first, input, a),
        decided(second, input, b),
        or_admits(first, second, input, outcome),
    ensures
        outcome == match a {
            Ok(done) => Ok(done),
            Err(earlier) => after_failure(earlier, b),
        },
{
}

/// `Unit` is the identity of alternation: beside a branch that fails with
/// `Unit` and nothing else, the alternation comes to what the other branch
/// comes to, whichever side the `Unit` branch stands on.
pub proof fn unit_is_identity_of_or<T: 'static>(
    unit: Parser<T>,
    other: Parser<T>,
    input: Seq<char>,
    outcome: Outcome<T>,
)
    requires
        decided(unit, input, Err(ParseError::Unit)),
        or_admits(unit, other, input, outcome) || or_admits(other, unit, input, outcome),
    ensures
        other.admits(input, outcome),
{
    if or_admits(unit, other, input, outcome) {
        let (earlier, later) = choose|earlier: ParseError, later: Outcome<T>|
            #![trigger unit.admits(input, Err(earlier)), other.admits(input, later)]
            unit.admits(input, Err(earlier)) && other.admits(input, later) && outcome
                == after_failure(earlier, later);
        if later is Err {
            unit_is_least(later->Err_0);
        }
    } else if !(outcome is Ok && other.admits(input, outcome)) {
        let (earlier, later) = choose|earlier: ParseError, later: Outcome<T>|
            #![trigger other.admits(input, Err(earlier)), unit.admits(input, later)]
            other.admits(input, Err(earlier)) && unit.admits(input, later) && outcome
                == after_failure(earlier, later);
        unit_is_least(earlier);
    }
}

/// A parser that yields a value and consumes nothing is the identity of
/// sequencing: before or after another parser, the sequence comes to what
/// the other parser comes to, with the value beside its own.
pub proof fn pure_is_identity_of_chain<A: Clone + 'static, B: 'static>(
    unit: Parser<A>,
    value: A,
    other: Parser<B>,
    input: Seq<char>,
    before: Outcome<(A, B)>,
    after: Outcome<(B, A)>,
)
    requires
        forall|given: Seq<char>, found: Outcome<A>| #[trigger]
            unit.admits(given, found) ==> pure_admits(value, given, found),
    ensures
        chain_admits(unit, other, input, before) ==> match before {
            Ok(((a, b), rest)) => cloned(value, a) && other.admits(input, Ok((b, rest))),
            Err(error) => other.admits(input, Err(error)),
        },
        chain_admits(other, unit, input, after) ==> match after {
            Ok(((b, a), rest)) => cloned(value, a) && other.admits(input, Ok((b, rest))),
            Err(error) => other.admits(input, Err(error)),
        },
{
    if chain_admits(unit, other, input, before) {
        match before {
            Ok(((a, b), rest)) => {
                let mid = choose|mid: Seq<char>| #[trigger]
                    unit.admits(input, Ok((a, mid))) && other.admits(mid, Ok((b, rest)));
            },
            Err(error) => {
                let mid = choose|mid: Seq<char>| #[trigger]
                    passes(unit, input, mid) && other.admits(mid, Err(error));
                let a = choose|a: A| #[trigger] unit.admits(input, Ok((a, mid)));
            },
        }
    }
    if chain_admits(other, unit, input, after) {
        match after {
            Ok(((b, a), rest)) => {
                let mid = choose|mid: Seq<char>| #[trigger]
                    other.admits(input, Ok((b, mid))) && unit.admits(mid, Ok((a, rest)));
            },
            Err(error) => {
                if !other.admits(input, Err(error)) {
                    let mid = choose|mid: Seq<char>| #[trigger]
                        passes(other, input, mid) && unit.admits(mid, Err(error));
                }
            },
        }
    }
}

/// A sequence fails with the failure of its first parser where that one is
/// decided to fail.
pub proof fn chain_fails_first<A: 'static, B: 'static>(
    first: Parser<A>,
    second: Parser<B>,
    input: Seq<char>,
    error: ParseError,
    found: ParseError,
)
    requires
        decided(first, input, Err(error)),
        chain_fails(first, second, input, found),
    ensures
        found == error,
{
    if !first.admits(input, Err(found)) {
        let mid = choose|mid: Seq<char>| #[trigger]
            passes(first, input, mid) && second.admits(mid, Err(found));
        let value = choose|value: A| #[trigger] first.admits(input, Ok((value, mid)));
    }
}

/// An optional parser never fails.
pub proof fn maybe_never_fails<T: 'static>(
    item: Parser<T>,
    input: Seq<char>,
    outcome: Outcome<Option<T>>,
)
    requires
        maybe_admits(item, input, outcome),
    ensures
        outcome is Ok,
{
}

/// A repetition of a productive parser never fails, and what it leaves is
/// no longer than what it was given.
pub proof fn many_is_total<T: 'static>(
    item: Parser<T>,
    input: Seq<char>,
    outcome: Outcome<Seq<T>>,
)
    requires
        productive(item),
        many_admits(item, input, outcome),
    ensures
        outcome matches Ok((values, rest)) && rest.len() + values.len() <= input.len(),
    decreases input.len(),
{
    match outcome {
        Ok((values, rest)) => {
            if values.len() > 0 {
                let mid = choose|mid: Seq<char>| #[trigger]
                    item.admits(input, Ok((values[0], mid))) && mid.len() < input.len()
                        && many_yields(item, mid, values.drop_first(), rest);
                many_is_total(item, mid, Ok((values.drop_first(), rest)));
            }
        },
        Err(error) => {
            if error == ParseError::Unit && item_stalls(item, input) {
                let (value, rest) = choose|value: T, rest: Seq<char>| #[trigger]
                    item.admits(input, Ok((value, rest))) && rest.len() >= input.len();
            } else {
                let (value, mid) = choose|value: T, mid: Seq<char>| #[trigger]
                    item.admits(input, Ok((value, mid))) && mid.len() < input.len() && many_fails(
                        item,
                        mid,
                        error,
                    );
                many_is_total(item, mid, Err(error));
            }
        },
    }
}

/// A repetition stops where its parser fails: every value it yields is one
/// that the parser yielded, and the parser fails on what is left.
pub proof fn many_stops_at_failure<T: 'static>(
    item: Parser<T>,
    input: Seq<char>,
    values: Seq<T>,
    rest: Seq<char>,
)
    requires
        many_yields(item, input, values, rest),
    ensures
        item_fails(item, rest),
        values.len() == 0 ==> rest == input,
    decreases input.len(),
{
    if values.len() > 0 {
        let mid = choose|mid: Seq<char>| #[trigger]
            item.admits(input, Ok((values[0], mid))) && mid.len() < input.len() && many_yields(
                item,
                mid,
                values.drop_first(),
                rest,
            );
        many_stops_at_failure(item, mid, values.drop_first(), rest);
    }
}

/// Where its parser is decided to fail on an input, a repetition yields
/// nothing there and leaves the whole input.
pub proof fn many_of_failure<T: 'static>(
    item: Parser<T>,
    input: Seq<char>,
    error: ParseError,
    outcome: Outcome<Seq<T>>,
)
    requires
        decided(item, input, Err(error)),
        many_admits(item, input, outcome),
    ensures
        outcome == Ok::<(Seq<T>, Seq<char>), ParseError>((Seq::empty(), input)),
{
    match outcome {
        Ok((values, rest)) => {
            if values.len() > 0 {
                let mid = choose|mid: Seq<char>| #[trigger]
                    item.admits(input, Ok((values[0], mid))) && mid.len() < input.len()
                        && many_yields(item, mid, values.drop_first(), rest);
            }
            assert(values =~= Seq::<T>::empty());
        },
        Err(found) => {
            if found == ParseError::Unit && item_stalls(item, input) {
                let (value, rest) = choose|value: T, rest: Seq<char>| #[trigger]
                    item.admits(input, Ok((value, rest))) && rest.len() >= input.len();
            } else {
                let (value, mid) = choose|value: T, mid: Seq<char>| #[trigger]
                    item.admits(input, Ok((value, mid))) && mid.len() < input.len() && many_fails(
                        item,
                        mid,
                        found,
                    );
            }
        },
    }
}

/// One or more repetitions of a productive parser need at least one match:
/// they fail only with a failure of the first repetition, and a success
/// holds at least one value.
pub proof fn some_needs_one<T: 'static>(
    item: Parser<T>,
    input: Seq<char>,
    outcome: Outcome<Seq<T>>,
)
    requires
        productive(item),
        some_admits(item, input, outcome),
    ensures
        match outcome {
            Ok((values, rest)) => values.len() > 0 && exists|mid: Seq<char>| #[trigger]
                item.admits(input, Ok((values[0], mid))),
            Err(error) => item.admits(input, Err(error)),
        },
{
    match outcome {
        Ok((values, rest)) => {},
        Err(error) => {
            if !item.admits(input, Err(error)) {
                let mid = choose|mid: Seq<char>| #[trigger]
                    passes(item, input, mid) && many_fails(item, mid, error);
                many_is_total(item, mid, Err(error));
            }
        },
    }
}

/// Where its parser is decided to fail on an input, one or more repetitions
/// of it fail there with that same failure.
pub proof fn some_of_failure<T: 'static>(
    item: Parser<T>,
    input: Seq<char>,
    error: ParseError,
    outcome: Outcome<Seq<T>>,
)
    requires
        decided(item, input, Err(error)),
        some_admits(item, input, outcome),
    ensures
        outcome == Err::<(Seq<T>, Seq<char>), ParseError>(error),
{
    match outcome {
        Ok((values, rest)) => {
            let mid = choose|mid: Seq<char>| #[trigger]
                item.admits(input, Ok((values[0], mid))) && many_yields(
                    item,
                    mid,
                    values.drop_first(),
                    rest,
                );
        },
        Err(found) => {
            if !item.admits(input, Err(found)) {
                let mid = choose|mid: Seq<char>| #[trigger]
                    passes(item, input, mid) && many_fails(item, mid, found);
                let value = choose|value: T| #[trigger] item.admits(input, Ok((value, mid)));
            }
        },
    }
}

/// A parser that matches one character is productive, and so is one that
/// matches one character of a class.
pub proof fn characters_are_productive(parser: Parser<char>, expected: char, class: Seq<char>)
    requires
        (forall|input: Seq<char>, outcome: Outcome<char>| #[trigger]
            parser.admits(input, outcome) ==> outcome == match_char(expected, input)) || (forall|
            input: Seq<char>,
            outcome: Outcome<char>,
        | #[trigger] parser.admits(input, outcome) ==> outcome == one_of(class, input)),
    ensures
        productive(parser),
{
}

} // verus!
