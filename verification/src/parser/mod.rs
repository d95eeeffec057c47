//! The generic parser type and its algebra: constructors, sequencing,
//! alternation and repetition.

pub mod error;
pub mod text;
pub mod generators;
pub mod laws;
pub mod model;

use std::marker::PhantomData;
use std::sync::Arc;
use vstd::prelude::*;
use error::ParseError;

verus! {

/// What one run of a parser on an input amounts to: a value and the
/// unconsumed remainder of the input, or a failure.
pub type Outcome<T> = Result<(T, Seq<char>), ParseError>;

/// The outcome that a returned result stands for.
pub open spec fn outcome_of<T>(r: Result<(T, String), ParseError>) -> Outcome<T> {
    match r {
        Ok((value, rest)) => Ok((value, rest@)),
        Err(error) => Err(error),
    }
}

/// An outcome with its value replaced by what the value stands for.
pub open spec fn deep<T: DeepView>(outcome: Outcome<T>) -> Outcome<T::V> {
    match outcome {
        Ok((value, rest)) => Ok((value.deep_view(), rest)),
        Err(error) => Err(error),
    }
}

/// Whether `parser` computes `model`: every outcome of it on an input is,
/// up to what the value stands for, the one that `model` gives for that
/// input.
pub open spec fn follows<T: DeepView + 'static>(
    parser: Parser<T>,
    model: spec_fn(Seq<char>) -> Outcome<T::V>,
) -> bool {
    forall|input: Seq<char>, outcome: Outcome<T>| #[trigger]
        parser.admits(input, outcome) ==> deep(outcome) == model(input)
}

/// The behaviour behind a parser: a relation between inputs and outcomes,
/// and a run that only produces outcomes of that relation.
trait Rule<T> {
    spec fn admits(&self, input: Seq<char>, outcome: Outcome<T>) -> bool;

    fn run(&self, input: String) -> (r: Result<(T, String), ParseError>)
        ensures
            self.admits(input@, outcome_of(r)),
    ;
}

/// A generic parser for pal.
///
/// A parser is an immutable, shareable computation from an input to an
/// outcome. Its meaning is the relation [`Parser::admits`]: every outcome that
/// a run on `input` can produce is admitted on `input`.
#[verifier::reject_recursive_types(T)]
pub struct Parser<T> {
    rule: Arc<Box<dyn Rule<T>>>,
}

/// `Arc::clone` on the rule of a parser. It makes another pointer to the same
/// allocation, so the copy stands for the very rule that `rule` stands for.
#[verifier::external_body]
fn share<T: 'static>(rule: &Arc<Box<dyn Rule<T>>>) -> (copy: Arc<Box<dyn Rule<T>>>)
    ensures
        copy == *rule,
{
    Arc::clone(rule)
}

impl<T: 'static> Clone for Parser<T> {
    /// Another handle on the same parser.
    fn clone(&self) -> (p: Self)
        ensures
            p == *self,
    {
        Parser { rule: share(&self.rule) }
    }
}

/// Outcomes of a function used as a parser.
pub open spec fn fn_admits<T, F: Fn(String) -> Result<(T, String), ParseError>>(
    f: F,
    input: Seq<char>,
    outcome: Outcome<T>,
) -> bool {
    exists|s: String, r: Result<(T, String), ParseError>|
        s@ == input && #[trigger] call_ensures(f, (s,), r) && outcome_of(r) == outcome
}

#[verifier::reject_recursive_types(T)]
struct FromFn<T, F: Fn(String) -> Result<(T, String), ParseError>> {
    f: F,
    marker: PhantomData<T>,
}

impl<T, F: Fn(String) -> Result<(T, String), ParseError>> FromFn<T, F> {
    #[verifier::type_invariant]
    spec fn accepts_every_input(self) -> bool {
        forall|s: String| call_requires(self.f, (s,))
    }
}

impl<T, F: Fn(String) -> Result<(T, String), ParseError>> Rule<T> for FromFn<T, F> {
    closed spec fn admits(&self, input: Seq<char>, outcome: Outcome<T>) -> bool {
        fn_admits(self.f, input, outcome)
    }

    fn run(&self, input: String) -> (r: Result<(T, String), ParseError>) {
        proof {
            use_type_invariant(self);
        }
        let ghost given = input;
        let r = (self.f)(input);
        assert(call_ensures(self.f, (given,), r));
        r
    }
}

/// Outcomes of a parser that is built anew, by `producer`, for every run.
pub open spec fn lazy_admits<T: 'static, F: Fn() -> Parser<T>>(
    producer: F,
    input: Seq<char>,
    outcome: Outcome<T>,
) -> bool {
    exists|built: Parser<T>| #[trigger] call_ensures(producer, (), built) && built.admits(input, outcome)
}

#[verifier::reject_recursive_types(T)]
struct Lazy<T, F: Fn() -> Parser<T>> {
    producer: F,
    marker: PhantomData<T>,
}

impl<T, F: Fn() -> Parser<T>> Lazy<T, F> {
    #[verifier::type_invariant]
    spec fn can_produce(self) -> bool {
        call_requires(self.producer, ())
    }
}

impl<T: 'static, F: Fn() -> Parser<T>> Rule<T> for Lazy<T, F> {
    closed spec fn admits(&self, input: Seq<char>, outcome: Outcome<T>) -> bool {
        lazy_admits(self.producer, input, outcome)
    }

    fn run(&self, input: String) -> (r: Result<(T, String), ParseError>) {
        proof {
            use_type_invariant(self);
        }
        let built = (self.producer)();
        built.apply(input)
    }
}

/// Outcomes of a parser whose successful values pass through `f`.
pub open spec fn map_admits<T: 'static, O, F: Fn(T) -> O>(
    inner: Parser<T>,
    f: F,
    input: Seq<char>,
    outcome: Outcome<O>,
) -> bool {
    match outcome {
        Ok((mapped, rest)) => map_yields(inner, f, input, mapped, rest),
        Err(error) => inner.admits(input, Err(error)),
    }
}

/// Whether `inner` can yield, with `rest` left over, a value that `f` turns
/// into `mapped`.
pub open spec fn map_yields<T: 'static, O, F: Fn(T) -> O>(
    inner: Parser<T>,
    f: F,
    input: Seq<char>,
    mapped: O,
    rest: Seq<char>,
) -> bool {
    exists|value: T| #[trigger]
        inner.admits(input, Ok((value, rest))) && call_ensures(f, (value,), mapped)
}

/// Whether `f` may be called on every value that `inner` can yield.
pub open spec fn map_applies<T: 'static, O, F: Fn(T) -> O>(inner: Parser<T>, f: F) -> bool {
    forall|input: Seq<char>, value: T, rest: Seq<char>| #[trigger]
        inner.admits(input, Ok((value, rest))) ==> call_requires(f, (value,))
}

#[verifier::reject_recursive_types(T)]
#[verifier::reject_recursive_types(O)]
struct Mapped<T: 'static, O, F: Fn(T) -> O> {
    inner: Parser<T>,
    f: F,
    marker: PhantomData<O>,
}

impl<T: 'static, O, F: Fn(T) -> O> Mapped<T, O, F> {
    #[verifier::type_invariant]
    spec fn applies(self) -> bool {
        map_applies(self.inner, self.f)
    }
}

impl<T: 'static, O, F: Fn(T) -> O> Rule<O> for Mapped<T, O, F> {
    closed spec fn admits(&self, input: Seq<char>, outcome: Outcome<O>) -> bool {
        map_admits(self.inner, self.f, input, outcome)
    }

    fn run(&self, input: String) -> (r: Result<(O, String), ParseError>) {
        proof {
            use_type_invariant(self);
        }
        let ghost given = input@;
        match self.inner.apply(input) {
            Ok((value, rest)) => {
                assert(self.inner.admits(given, Ok((value, rest@))));
                let mapped = (self.f)(value);
                assert(map_yields(self.inner, self.f, given, mapped, rest@));
                Ok((mapped, rest))
            },
            Err(error) => Err(error),
        }
    }
}

/// Outcomes of the parser that yields `value` and consumes nothing.
pub open spec fn pure_admits<T: Clone>(value: T, input: Seq<char>, outcome: Outcome<T>) -> bool {
    outcome matches Ok((copy, rest)) && rest == input && cloned(value, copy)
}

struct Pure<T: Clone> {
    value: T,
}

impl<T: Clone> Rule<T> for Pure<T> {
    closed spec fn admits(&self, input: Seq<char>, outcome: Outcome<T>) -> bool {
        pure_admits(self.value, input, outcome)
    }

    fn run(&self, input: String) -> (r: Result<(T, String), ParseError>) {
        Ok((self.value.clone(), input))
    }
}

struct Fail {
    error: ParseError,
}

impl<T> Rule<T> for Fail {
    closed spec fn admits(&self, input: Seq<char>, outcome: Outcome<T>) -> bool {
        outcome == Err::<(T, Seq<char>), ParseError>(self.error)
    }

    fn run(&self, input: String) -> (r: Result<(T, String), ParseError>) {
        Err(self.error)
    }
}

/// Outcomes of `first` followed by `second` on what `first` left over.
pub open spec fn chain_admits<A: 'static, B: 'static>(
    first: Parser<A>,
    second: Parser<B>,
    input: Seq<char>,
    outcome: Outcome<(A, B)>,
) -> bool {
    match outcome {
        Ok(((a, b), rest)) => chain_yields(first, second, input, a, b, rest),
        Err(error) => chain_fails(first, second, input, error),
    }
}

/// Whether `first` can yield `a` and `second`, on what `first` left over,
/// `b` with `rest` left over.
pub open spec fn chain_yields<A: 'static, B: 'static>(
    first: Parser<A>,
    second: Parser<B>,
    input: Seq<char>,
    a: A,
    b: B,
    rest: Seq<char>,
) -> bool {
    exists|mid: Seq<char>| #[trigger]
        first.admits(input, Ok((a, mid))) && second.admits(mid, Ok((b, rest)))
}

/// Whether `parser` can succeed on `input` with `rest` left over.
pub open spec fn passes<T: 'static>(parser: Parser<T>, input: Seq<char>, rest: Seq<char>) -> bool {
    exists|value: T| #[trigger] parser.admits(input, Ok((value, rest)))
}

/// Whether `first` followed by `second` can fail with `error`: `first` fails
/// with it, or `first` succeeds and `second` fails with it on the remainder.
pub open spec fn chain_fails<A: 'static, B: 'static>(
    first: Parser<A>,
    second: Parser<B>,
    input: Seq<char>,
    error: ParseError,
) -> bool {
    ||| first.admits(input, Err(error))
    ||| exists|mid: Seq<char>| #[trigger] passes(first, input, mid) && second.admits(mid, Err(error))
}

/// Outcomes of `first` followed by `second`, keeping the value of `first`.
pub open spec fn left_admits<A: 'static, B: 'static>(
    first: Parser<A>,
    second: Parser<B>,
    input: Seq<char>,
    outcome: Outcome<A>,
) -> bool {
    match outcome {
        Ok((a, rest)) => exists|mid: Seq<char>| #[trigger]
            first.admits(input, Ok((a, mid))) && passes(second, mid, rest),
        Err(error) => chain_fails(first, second, input, error),
    }
}

/// Outcomes of `first` followed by `second`, keeping the value of `second`.
pub open spec fn right_admits<A: 'static, B: 'static>(
    first: Parser<A>,
    second: Parser<B>,
    input: Seq<char>,
    outcome: Outcome<B>,
) -> bool {
    match outcome {
        Ok((b, rest)) => exists|mid: Seq<char>| #[trigger]
            passes(first, input, mid) && second.admits(mid, Ok((b, rest))),
        Err(error) => chain_fails(first, second, input, error),
    }
}

/// Outcomes of `inner` between `open` and `close`, keeping the value of
/// `inner`.
pub open spec fn between_admits<A: 'static, T: 'static, C: 'static>(
    open: Parser<A>,
    inner: Parser<T>,
    close: Parser<C>,
    input: Seq<char>,
    outcome: Outcome<T>,
) -> bool {
    match outcome {
        Ok((value, rest)) => exists|from: Seq<char>, to: Seq<char>|
            passes(open, input, from) && #[trigger] inner.admits(from, Ok((value, to))) && passes(
                close,
                to,
                rest,
            ),
        Err(error) => {
            ||| open.admits(input, Err(error))
            ||| exists|from: Seq<char>| #[trigger]
                passes(open, input, from) && left_admits(inner, close, from, Err(error))
        },
    }
}

/// Outcomes of an optional `item`: its value where it succeeds, nothing
/// and the whole input where it fails.
pub open spec fn maybe_admits<T: 'static>(
    item: Parser<T>,
    input: Seq<char>,
    outcome: Outcome<Option<T>>,
) -> bool {
    match outcome {
        Ok((Some(value), rest)) => item.admits(input, Ok((value, rest))),
        Ok((None, rest)) => rest == input && item_fails(item, input),
        Err(_) => false,
    }
}

/// Outcomes of `item` where it succeeds, of `fallback` with the whole
/// input where it fails.
pub open spec fn otherwise_admits<T: 'static + Clone>(
    item: Parser<T>,
    fallback: T,
    input: Seq<char>,
    outcome: Outcome<T>,
) -> bool {
    ||| outcome is Ok && item.admits(input, outcome)
    ||| item_fails(item, input) && pure_admits(fallback, input, outcome)
}

#[verifier::reject_recursive_types(A)]
#[verifier::reject_recursive_types(B)]
struct Chain<A, B> {
    first: Parser<A>,
    second: Parser<B>,
}

impl<A: 'static, B: 'static> Rule<(A, B)> for Chain<A, B> {
    closed spec fn admits(&self, input: Seq<char>, outcome: Outcome<(A, B)>) -> bool {
        chain_admits(self.first, self.second, input, outcome)
    }

    fn run(&self, input: String) -> (r: Result<((A, B), String), ParseError>) {
        let ghost given = input@;
        match self.first.apply(input) {
            Ok((a, mid)) => {
                let ghost middle = mid@;
                assert(self.first.admits(given, Ok((a, middle))));
                match self.second.apply(mid) {
                    Ok((b, rest)) => {
                        assert(chain_yields(self.first, self.second, given, a, b, rest@));
                        Ok(((a, b), rest))
                    },
                    Err(error) => {
                        assert(passes(self.first, given, middle));
                        assert(chain_fails(self.first, self.second, given, error));
                        Err(error)
                    },
                }
            },
            Err(error) => Err(error),
        }
    }
}

/// What an alternation comes to once its first branch has failed with
/// `earlier`: the success of the second branch, or the greater of the two
/// failures.
pub open spec fn after_failure<T>(earlier: ParseError, later: Outcome<T>) -> Outcome<T> {
    match later {
        Ok(done) => Ok(done),
        Err(error) => Err(earlier.greater(error)),
    }
}

/// Outcomes of `first`, or of `second` on the same input where `first`
/// fails; where both fail, the greater of the two failures.
pub open spec fn or_admits<T: 'static>(
    first: Parser<T>,
    second: Parser<T>,
    input: Seq<char>,
    outcome: Outcome<T>,
) -> bool {
    ||| outcome is Ok && first.admits(input, outcome)
    ||| exists|earlier: ParseError, later: Outcome<T>|
        #![trigger first.admits(input, Err(earlier)), second.admits(input, later)]
        first.admits(input, Err(earlier)) && second.admits(input, later) && outcome
            == after_failure(earlier, later)
}

#[verifier::reject_recursive_types(T)]
struct Either<T> {
    first: Parser<T>,
    second: Parser<T>,
}

impl<T: 'static> Rule<T> for Either<T> {
    closed spec fn admits(&self, input: Seq<char>, outcome: Outcome<T>) -> bool {
        or_admits(self.first, self.second, input, outcome)
    }

    fn run(&self, input: String) -> (r: Result<(T, String), ParseError>) {
        match self.first.apply(input.clone()) {
            Ok(done) => Ok(done),
            Err(earlier) => {
                let ghost given = input@;
                let r = self.second.apply(input);
                assert(self.first.admits(given, Err(earlier)));
                assert(self.second.admits(given, outcome_of(r)));
                match r {
                    Ok(done) => Ok(done),
                    Err(later) => Err(earlier.max(later)),
                }
            },
        }
    }
}

/// Whether `item` can fail on `input`.
pub open spec fn item_fails<T: 'static>(item: Parser<T>, input: Seq<char>) -> bool {
    exists|error: ParseError| #[trigger] item.admits(input, Err(error))
}

/// Whether `item` can succeed on `input` without leaving less than it was
/// given: a repetition of it would never end there.
pub open spec fn item_stalls<T: 'static>(item: Parser<T>, input: Seq<char>) -> bool {
    exists|value: T, rest: Seq<char>| #[trigger]
        item.admits(input, Ok((value, rest))) && rest.len() >= input.len()
}

/// Whether repeating `item` on `input` can yield exactly `values`, one per
/// repetition, and stop with `rest` left over because `item` fails there.
pub open spec fn many_yields<T: 'static>(
    item: Parser<T>,
    input: Seq<char>,
    values: Seq<T>,
    rest: Seq<char>,
) -> bool
    decreases input.len(),
{
    if values.len() == 0 {
        rest == input && item_fails(item, input)
    } else {
        exists|mid: Seq<char>| #[trigger]
            item.admits(input, Ok((values[0], mid))) && mid.len() < input.len() && many_yields(
                item,
                mid,
                values.drop_first(),
                rest,
            )
    }
}

/// Whether repeating `item` on `input` can fail with `error`: after some
/// repetitions that each consume input, one succeeds without consuming any,
/// and the repetition is given up with `Unit`.
pub open spec fn many_fails<T: 'static>(
    item: Parser<T>,
    input: Seq<char>,
    error: ParseError,
) -> bool
    decreases input.len(),
{
    ||| error == ParseError::Unit && item_stalls(item, input)
    ||| exists|value: T, mid: Seq<char>| #[trigger]
        item.admits(input, Ok((value, mid))) && mid.len() < input.len() && many_fails(
            item,
            mid,
            error,
        )
}

/// Outcomes of zero or more repetitions of `item`, over the sequence of the
/// values collected.
pub open spec fn many_admits<T: 'static>(
    item: Parser<T>,
    input: Seq<char>,
    outcome: Outcome<Seq<T>>,
) -> bool {
    match outcome {
        Ok((values, rest)) => many_yields(item, input, values, rest),
        Err(error) => many_fails(item, input, error),
    }
}

/// Outcomes of one or more repetitions of `item`: it fails where the first
/// repetition fails, with that failure.
pub open spec fn some_admits<T: 'static>(
    item: Parser<T>,
    input: Seq<char>,
    outcome: Outcome<Seq<T>>,
) -> bool {
    match outcome {
        Ok((values, rest)) => values.len() > 0 && exists|mid: Seq<char>| #[trigger]
            item.admits(input, Ok((values[0], mid))) && many_yields(
                item,
                mid,
                values.drop_first(),
                rest,
            ),
        Err(error) => {
            ||| item.admits(input, Err(error))
            ||| exists|mid: Seq<char>| #[trigger]
                passes(item, input, mid) && many_fails(item, mid, error)
        },
    }
}

/// The outcome of a parser of vectors, over the sequence that the vector holds.
pub open spec fn listed<T>(outcome: Outcome<Vec<T>>) -> Outcome<Seq<T>> {
    match outcome {
        Ok((values, rest)) => Ok((values@, rest)),
        Err(error) => Err(error),
    }
}

#[verifier::reject_recursive_types(T)]
struct Many<T> {
    item: Parser<T>,
}

impl<T: 'static> Rule<Vec<T>> for Many<T> {
    closed spec fn admits(&self, input: Seq<char>, outcome: Outcome<Vec<T>>) -> bool {
        many_admits(self.item, input, listed(outcome))
    }

    fn run(&self, input: String) -> (r: Result<(Vec<T>, String), ParseError>) {
        let ghost start = input@;
        let mut values: Vec<T> = Vec::new();
        let mut rest = input;
        assert(values@ + Seq::<T>::empty() =~= Seq::<T>::empty());
        assert forall|later: Seq<T>, last: Seq<char>| #[trigger]
            many_yields(self.item, rest@, later, last) implies many_yields(
            self.item,
            start,
            values@ + later,
            last,
        ) by {
            assert(values@ + later =~= later);
        }
        loop
            invariant
                start == input@,
                forall|later: Seq<T>, last: Seq<char>| #[trigger]
                    many_yields(self.item, rest@, later, last) ==> many_yields(
                        self.item,
                        start,
                        values@ + later,
                        last,
                    ),
                forall|error: ParseError| #[trigger]
                    many_fails(self.item, rest@, error) ==> many_fails(self.item, start, error),
            decreases rest@.len(),
        {
            let before = rest.as_str().unicode_len();
            match self.item.apply(rest.clone()) {
                Err(error) => {
                    proof {
                        assert(self.item.admits(rest@, Err(error)));
                        assert(many_yields(self.item, rest@, Seq::<T>::empty(), rest@));
                        assert(values@ + Seq::<T>::empty() =~= values@);
                    }
                    return Ok((values, rest));
                },
                Ok((value, next)) => {
                    assert(self.item.admits(rest@, Ok((value, next@))));
                    if next.as_str().unicode_len() >= before {
                        assert(item_stalls(self.item, rest@));
                        assert(many_fails(self.item, rest@, ParseError::Unit));
                        return Err(ParseError::Unit);
                    }
                    let ghost earlier = values@;
                    let ghost current = rest@;
                    values.push(value);
                    rest = next;
                    proof {
                        assert forall|later: Seq<T>, last: Seq<char>| #[trigger]
                            many_yields(self.item, rest@, later, last) implies many_yields(
                            self.item,
                            start,
                            values@ + later,
                            last,
                        ) by {
                            let whole = seq![value] + later;
                            assert(whole[0] == value);
                            assert(whole.drop_first() =~= later);
                            assert(many_yields(self.item, current, whole, last));
                            assert(earlier + whole =~= values@ + later);
                        }
                        assert forall|error: ParseError| #[trigger]
                            many_fails(self.item, rest@, error) implies many_fails(
                            self.item,
                            start,
                            error,
                        ) by {
                            assert(many_fails(self.item, current, error));
                        }
                    }
                },
            }
        }
    }
}

impl<T: 'static> Parser<T> {
    /// Whether a run of this parser on `input` can end in `outcome`.
    pub closed spec fn admits(&self, input: Seq<char>, outcome: Outcome<T>) -> bool {
        self.rule.admits(input, outcome)
    }

    /// Creates a new parser from a given function, which parses a given [`String`] and returns
    /// either a result and the rest of the input, or a parsing error.
    pub fn new<F: Fn(String) -> Result<(T, String), ParseError> + 'static>(parser: F) -> (p: Parser<T>)
        requires
            forall|s: String| call_requires(parser, (s,)),
        ensures
            forall|input: Seq<char>, outcome: Outcome<T>|
                p.admits(input, outcome) ==> fn_admits(parser, input, outcome),
    {
        let rule = FromFn { f: parser, marker: PhantomData };
        let boxed: Box<dyn Rule<T>> = Box::new(rule);
        assert(forall|input: Seq<char>, outcome: Outcome<T>|
            boxed.admits(input, outcome) <==> rule.admits(input, outcome));
        let shared = Arc::new(boxed);
        assert(forall|input: Seq<char>, outcome: Outcome<T>|
            shared.admits(input, outcome) <==> boxed.admits(input, outcome));
        Parser { rule: shared }
    }

    /// Makes the parser that is moved into the closure lazily evaulated, meaning it only gets
    /// initialized when you attempt to parse.
    pub fn lazy<F: Fn() -> Parser<T> + 'static>(producer: F) -> (p: Parser<T>)
        requires
            call_requires(producer, ()),
        ensures
            forall|input: Seq<char>, outcome: Outcome<T>|
                p.admits(input, outcome) ==> lazy_admits(producer, input, outcome),
    {
        let rule = Lazy { producer, marker: PhantomData };
        let boxed: Box<dyn Rule<T>> = Box::new(rule);
        assert(forall|input: Seq<char>, outcome: Outcome<T>|
            boxed.admits(input, outcome) <==> rule.admits(input, outcome));
        let shared = Arc::new(boxed);
        assert(forall|input: Seq<char>, outcome: Outcome<T>|
            shared.admits(input, outcome) <==> boxed.admits(input, outcome));
        Parser { rule: shared }
    }

    // Functor
    /// Maps a [`Parser<T>`] to a [`Parser<O>`] with a function f such that `fn(T) -> O`.
    pub fn map<O: 'static, F: Fn(T) -> O + 'static>(self, f: F) -> (p: Parser<O>)
        requires
            map_applies(self, f),
        ensures
            forall|input: Seq<char>, outcome: Outcome<O>|
                p.admits(input, outcome) ==> map_admits(self, f, input, outcome),
    {
        let rule = Mapped { inner: self, f, marker: PhantomData };
        let boxed: Box<dyn Rule<O>> = Box::new(rule);
        assert(forall|input: Seq<char>, outcome: Outcome<O>|
            boxed.admits(input, outcome) <==> rule.admits(input, outcome));
        let shared = Arc::new(boxed);
        assert(forall|input: Seq<char>, outcome: Outcome<O>|
            shared.admits(input, outcome) <==> boxed.admits(input, outcome));
        Parser { rule: shared }
    }

    // Applicative
    /// Returns a [`Parser<T>`] that always returns `Ok((T, String))`.
    pub fn pure(value: T) -> (p: Parser<T>)
        where T: Clone
        ensures
            forall|input: Seq<char>, outcome: Outcome<T>|
                p.admits(input, outcome) ==> pure_admits(value, input, outcome),
    {
        let rule = Pure { value };
        let boxed: Box<dyn Rule<T>> = Box::new(rule);
        assert(forall|input: Seq<char>, outcome: Outcome<T>|
            boxed.admits(input, outcome) <==> rule.admits(input, outcome));
        let shared = Arc::new(boxed);
        assert(forall|input: Seq<char>, outcome: Outcome<T>|
            shared.admits(input, outcome) <==> boxed.admits(input, outcome));
        Parser { rule: shared }
    }

    /// Chains two parsers together such that the return Parser expects [`Parser<O>`] to follow
    /// [`Parser<T>`].
    pub fn chain<O: 'static>(self, other: Parser<O>) -> (p: Parser<(T, O)>)
        ensures
            forall|input: Seq<char>, outcome: Outcome<(T, O)>|
                p.admits(input, outcome) ==> chain_admits(self, other, input, outcome),
    {
        let rule = Chain { first: self, second: other };
        let boxed: Box<dyn Rule<(T, O)>> = Box::new(rule);
        assert(forall|input: Seq<char>, outcome: Outcome<(T, O)>|
            boxed.admits(input, outcome) <==> rule.admits(input, outcome));
        let shared = Arc::new(boxed);
        assert(forall|input: Seq<char>, outcome: Outcome<(T, O)>|
            shared.admits(input, outcome) <==> boxed.admits(input, outcome));
        Parser { rule: shared }
    }

    // Alternative
    /// Returns a [`Parser<T>`] that always returns `Err(ParseError)`.
    pub fn empty(value: ParseError) -> (p: Parser<T>)
        ensures
            forall|input: Seq<char>, outcome: Outcome<T>|
                p.admits(input, outcome) ==> outcome == Err::<(T, Seq<char>), ParseError>(value),
    {
        let rule = Fail { error: value };
        let boxed: Box<dyn Rule<T>> = Box::new(rule);
        assert(forall|input: Seq<char>, outcome: Outcome<T>|
            boxed.admits(input, outcome) <==> rule.admits(input, outcome));
        let shared = Arc::new(boxed);
        assert(forall|input: Seq<char>, outcome: Outcome<T>|
            shared.admits(input, outcome) <==> boxed.admits(input, outcome));
        Parser { rule: shared }
    }

    /// Creates a [`Parser`] that attempts the given [`Parser`] when the calling [`Parser`] fails.
    /// Errors are ordered and higher ordering variants are prioritized: where both parsers
    /// fail, the greater of the two errors is reported.
    pub fn or(self, other: Parser<T>) -> (p: Parser<T>)
        ensures
            forall|input: Seq<char>, outcome: Outcome<T>|
                p.admits(input, outcome) ==> or_admits(self, other, input, outcome),
    {
        let rule = Either { first: self, second: other };
        let boxed: Box<dyn Rule<T>> = Box::new(rule);
        assert(forall|input: Seq<char>, outcome: Outcome<T>|
            boxed.admits(input, outcome) <==> rule.admits(input, outcome));
        let shared = Arc::new(boxed);
        assert(forall|input: Seq<char>, outcome: Outcome<T>|
            shared.admits(input, outcome) <==> boxed.admits(input, outcome));
        Parser { rule: shared }
    }

    /// Creates a [`Parser`] that matches on zero or many possibilities.
    ///
    /// The repetition ends where the parser fails. Where the parser succeeds
    /// without consuming any input the repetition could never end: it is
    /// given up there and fails with [`ParseError::Unit`].
    pub fn many(self) -> (p: Parser<Vec<T>>)
        where T: Clone
        ensures
            forall|input: Seq<char>, outcome: Outcome<Vec<T>>|
                p.admits(input, outcome) ==> many_admits(self, input, listed(outcome)),
    {
        let rule = Many { item: self };
        let boxed: Box<dyn Rule<Vec<T>>> = Box::new(rule);
        assert(forall|input: Seq<char>, outcome: Outcome<Vec<T>>|
            boxed.admits(input, outcome) <==> rule.admits(input, outcome));
        let shared = Arc::new(boxed);
        assert(forall|input: Seq<char>, outcome: Outcome<Vec<T>>|
            shared.admits(input, outcome) <==> boxed.admits(input, outcome));
        Parser { rule: shared }
    }

    /// Chains two parsers together; another name of [`Parser::chain`].
    pub fn and<O: 'static>(self, other: Parser<O>) -> (p: Parser<(T, O)>)
        ensures
            forall|input: Seq<char>, outcome: Outcome<(T, O)>|
                p.admits(input, outcome) ==> chain_admits(self, other, input, outcome),
    {
        self.chain(other)
    }

    /// Chains two [`Parser`]s together and drops the right result.
    pub fn left<O: 'static>(self, other: Parser<O>) -> (p: Parser<T>)
        ensures
            forall|input: Seq<char>, outcome: Outcome<T>|
                p.admits(input, outcome) ==> left_admits(self, other, input, outcome),
    {
        let chained = self.chain(other);
        let keep = |pair: (T, O)| -> (kept: T)
            ensures
                kept == pair.0,
            { pair.0 };
        let p = chained.map(keep);
        proof {
            assert forall|input: Seq<char>, outcome: Outcome<T>|
                p.admits(input, outcome) implies left_admits(self, other, input, outcome) by {
                assert(map_admits(chained, keep, input, outcome));
                match outcome {
                    Ok((a, rest)) => {
                        let pair = choose|pair: (T, O)| #[trigger]
                            chained.admits(input, Ok((pair, rest))) && call_ensures(
                                keep,
                                (pair,),
                                a,
                            );
                        assert(chain_yields(self, other, input, pair.0, pair.1, rest));
                        let mid = choose|mid: Seq<char>| #[trigger]
                            self.admits(input, Ok((pair.0, mid))) && other.admits(
                                mid,
                                Ok((pair.1, rest)),
                            );
                        assert(passes(other, mid, rest));
                    },
                    Err(error) => {
                        assert(chain_admits(self, other, input, Err(error)));
                    },
                }
            }
        }
        p
    }

    /// Chains two [`Parser`]s together and drops the left result.
    pub fn right<O: 'static>(self, other: Parser<O>) -> (p: Parser<O>)
        ensures
            forall|input: Seq<char>, outcome: Outcome<O>|
                p.admits(input, outcome) ==> right_admits(self, other, input, outcome),
    {
        let chained = self.chain(other);
        let keep = |pair: (T, O)| -> (kept: O)
            ensures
                kept == pair.1,
            { pair.1 };
        let p = chained.map(keep);
        proof {
            assert forall|input: Seq<char>, outcome: Outcome<O>|
                p.admits(input, outcome) implies right_admits(self, other, input, outcome) by {
                assert(map_admits(chained, keep, input, outcome));
                match outcome {
                    Ok((b, rest)) => {
                        let pair = choose|pair: (T, O)| #[trigger]
                            chained.admits(input, Ok((pair, rest))) && call_ensures(
                                keep,
                                (pair,),
                                b,
                            );
                        assert(chain_yields(self, other, input, pair.0, pair.1, rest));
                        let mid = choose|mid: Seq<char>| #[trigger]
                            self.admits(input, Ok((pair.0, mid))) && other.admits(
                                mid,
                                Ok((pair.1, rest)),
                            );
                        assert(passes(self, input, mid));
                    },
                    Err(error) => {
                        assert(chain_admits(self, other, input, Err(error)));
                    },
                }
            }
        }
        p
    }

    /// Expects `self` between `b` and `c`, and drops what those two yield.
    pub fn between<O: 'static, U: 'static>(self, b: Parser<O>, c: Parser<U>) -> (p: Parser<T>)
        ensures
            forall|input: Seq<char>, outcome: Outcome<T>|
                p.admits(input, outcome) ==> between_admits(b, self, c, input, outcome),
    {
        let opened = b.right(self);
        let p = opened.left(c);
        proof {
            assert forall|input: Seq<char>, outcome: Outcome<T>|
                p.admits(input, outcome) implies between_admits(b, self, c, input, outcome) by {
                assert(left_admits(opened, c, input, outcome));
                match outcome {
                    Ok((value, rest)) => {
                        let to = choose|to: Seq<char>| #[trigger]
                            opened.admits(input, Ok((value, to))) && passes(c, to, rest);
                        assert(right_admits(b, self, input, Ok((value, to))));
                        let from = choose|from: Seq<char>| #[trigger]
                            passes(b, input, from) && self.admits(from, Ok((value, to)));
                        assert(self.admits(from, Ok((value, to))));
                    },
                    Err(error) => {
                        if opened.admits(input, Err(error)) {
                            assert(right_admits(b, self, input, Err(error)));
                            if !b.admits(input, Err(error)) {
                                let from = choose|from: Seq<char>| #[trigger]
                                    passes(b, input, from) && self.admits(from, Err(error));
                                assert(left_admits(self, c, from, Err(error)));
                            }
                        } else {
                            let to = choose|to: Seq<char>| #[trigger]
                                passes(opened, input, to) && c.admits(to, Err(error));
                            let value = choose|value: T| #[trigger]
                                opened.admits(input, Ok((value, to)));
                            assert(right_admits(b, self, input, Ok((value, to))));
                            let from = choose|from: Seq<char>| #[trigger]
                                passes(b, input, from) && self.admits(from, Ok((value, to)));
                            assert(passes(self, from, to));
                            assert(left_admits(self, c, from, Err(error)));
                        }
                    },
                }
            }
        }
        p
    }

    /// Creates a [`Parser`] that wraps a value in [`Option<T>`]. Returns `Some(T)` when the parser
    /// succeeds, otherwise returns `None`.
    pub fn maybe(self) -> (p: Parser<Option<T>>)
        where T: Clone
        ensures
            forall|input: Seq<char>, outcome: Outcome<Option<T>>|
                p.admits(input, outcome) ==> maybe_admits(self, input, outcome),
    {
        let wrap = |value: T| -> (wrapped: Option<T>)
            ensures
                wrapped == Some(value),
            { Some(value) };
        let found = self.map(wrap);
        let missing: Parser<Option<T>> = Parser::pure(None);
        let p = found.or(missing);
        proof {
            assert forall|input: Seq<char>, outcome: Outcome<Option<T>>|
                p.admits(input, outcome) implies maybe_admits(self, input, outcome) by {
                assert(or_admits(found, missing, input, outcome));
                if outcome is Ok && found.admits(input, outcome) {
                    assert(map_admits(self, wrap, input, outcome));
                } else {
                    let (earlier, later) = choose|earlier: ParseError, later: Outcome<Option<T>>|
                        #![trigger found.admits(input, Err(earlier)), missing.admits(input, later)]
                        found.admits(input, Err(earlier)) && missing.admits(input, later)
                            && outcome == after_failure(earlier, later);
                    assert(map_admits(self, wrap, input, Err(earlier)));
                    assert(self.admits(input, Err(earlier)));
                    assert(pure_admits(None::<T>, input, later));
                }
            }
        }
        p
    }

    /// Tries `self` and, where it fails, yields `other` and consumes nothing.
    pub fn otherwise(self, other: T) -> (p: Parser<T>)
        where T: Clone
        ensures
            forall|input: Seq<char>, outcome: Outcome<T>|
                p.admits(input, outcome) ==> otherwise_admits(self, other, input, outcome),
    {
        let fallback = Parser::pure(other);
        let p = self.or(fallback);
        proof {
            assert forall|input: Seq<char>, outcome: Outcome<T>|
                p.admits(input, outcome) implies otherwise_admits(self, other, input, outcome) by {
                assert(or_admits(self, fallback, input, outcome));
                if !(outcome is Ok && self.admits(input, outcome)) {
                    let (earlier, later) = choose|earlier: ParseError, later: Outcome<T>|
                        #![trigger self.admits(input, Err(earlier)), fallback.admits(input, later)]
                        self.admits(input, Err(earlier)) && fallback.admits(input, later)
                            && outcome == after_failure(earlier, later);
                    assert(pure_admits(other, input, later));
                }
            }
        }
        p
    }

    /// Creates a [`Parser`] that matches on one or many possibilities.
    /// This is equivalent to the following (omitting clones):
    /// ```rs
    /// parser.chain(parser.many()).map(merge)
    /// ```
    pub fn some(self) -> (p: Parser<Vec<T>>)
        where T: Clone
        ensures
            forall|input: Seq<char>, outcome: Outcome<Vec<T>>|
                p.admits(input, outcome) ==> some_admits(self, input, listed(outcome)),
    {
        let first = self.clone();
        let more = self.many();
        let chained = first.chain(more);
        let merge = |pair: (T, Vec<T>)| -> (merged: Vec<T>)
            ensures
                merged@ == seq![pair.0] + pair.1@,
            {
                let (head, tail) = pair;
                let mut merged = tail;
                merged.insert(0, head);
                assert(merged@ =~= seq![head] + tail@);
                merged
            };
        let p = chained.map(merge);
        proof {
            assert forall|input: Seq<char>, outcome: Outcome<Vec<T>>|
                p.admits(input, outcome) implies some_admits(self, input, listed(outcome)) by {
                assert(map_admits(chained, merge, input, outcome));
                match outcome {
                    Ok((merged, rest)) => {
                        let pair = choose|pair: (T, Vec<T>)| #[trigger]
                            chained.admits(input, Ok((pair, rest))) && call_ensures(
                                merge,
                                (pair,),
                                merged,
                            );
                        assert(chain_yields(first, more, input, pair.0, pair.1, rest));
                        let mid = choose|mid: Seq<char>| #[trigger]
                            first.admits(input, Ok((pair.0, mid))) && more.admits(
                                mid,
                                Ok((pair.1, rest)),
                            );
                        assert(many_admits(self, mid, listed(Ok((pair.1, rest)))));
                        assert(merged@[0] == pair.0);
                        assert(merged@.drop_first() =~= pair.1@);
                    },
                    Err(error) => {
                        assert(chain_admits(first, more, input, Err(error)));
                        if !first.admits(input, Err(error)) {
                            let mid = choose|mid: Seq<char>| #[trigger]
                                passes(first, input, mid) && more.admits(mid, Err(error));
                            assert(many_admits(self, mid, listed(Err::<(Vec<T>, Seq<char>), ParseError>(error))));
                        }
                    },
                }
            }
        }
        p
    }

    /// Runs the parser on an owned input.
    pub(crate) fn apply(&self, input: String) -> (r: Result<(T, String), ParseError>)
        ensures
            self.admits(input@, outcome_of(r)),
    {
        self.rule.run(input)
    }

    /// Runs the parser on `input` and returns the value with the rest of the
    /// input, or the failure.
    pub fn parse(&self, input: &str) -> (r: Result<(T, String), ParseError>)
        ensures
            self.admits(input@, outcome_of(r)),
    {
        self.apply(input.to_owned())
    }
}

} // verus!
