//! Parsers that come to one outcome on every input: what they compute is a
//! function of the input, and the functions of the combinators are those of
//! their parts put together.

use vstd::prelude::*;
use crate::parser::error::ParseError;
use crate::parser::{
    Outcome, Parser, after_failure, between_admits, chain_admits, chain_fails, deep, fn_admits,
    follows, item_stalls, left_admits, listed, many_admits, many_fails, many_yields, map_admits,
    maybe_admits, or_admits, outcome_of, passes, right_admits,
};

verus! {

/// `first`, and then `second` on what `first` left over: both values.
pub open spec fn then<A, B>(first: Outcome<A>, second: spec_fn(Seq<char>) -> Outcome<B>) -> Outcome<
    (A, B),
> {
    match first {
        Ok((a, mid)) => match second(mid) {
            Ok((b, rest)) => Ok(((a, b), rest)),
            Err(error) => Err(error),
        },
        Err(error) => Err(error),
    }
}

/// `first`, and then `second` on what `first` left over: the value of
/// `first`.
pub open spec fn then_skip<A, B>(
    first: Outcome<A>,
    second: spec_fn(Seq<char>) -> Outcome<B>,
) -> Outcome<A> {
    match first {
        Ok((a, mid)) => match second(mid) {
            Ok((b, rest)) => Ok((a, rest)),
            Err(error) => Err(error),
        },
        Err(error) => Err(error),
    }
}

/// `first`, and then `second` on what `first` left over: the value of
/// `second`.
pub open spec fn skip_then<A, B>(
    first: Outcome<A>,
    second: spec_fn(Seq<char>) -> Outcome<B>,
) -> Outcome<B> {
    match first {
        Ok((a, mid)) => second(mid),
        Err(error) => Err(error),
    }
}

/// `first`, or `second` where `first` fails; the greater failure where
/// both fail.
pub open spec fn or_else<T>(first: Outcome<T>, second: Outcome<T>) -> Outcome<T> {
    match first {
        Ok(done) => Ok(done),
        Err(earlier) => after_failure(earlier, second),
    }
}

/// `outcome` with its value passed through `f`.
pub open spec fn mapped<A, B>(outcome: Outcome<A>, f: spec_fn(A) -> B) -> Outcome<B> {
    match outcome {
        Ok((value, rest)) => Ok((f(value), rest)),
        Err(error) => Err(error),
    }
}

/// The value of `outcome` where it succeeds, nothing and the whole `input`
/// where it fails.
pub open spec fn optional<T>(outcome: Outcome<T>, input: Seq<char>) -> Outcome<Option<T>> {
    match outcome {
        Ok((value, rest)) => Ok((Some(value), rest)),
        Err(_) => Ok((None, input)),
    }
}

/// `item` again and again from `input`, until it fails: the values in
/// order, and what is left. A success of `item` that leaves no less than it
/// was given ends the repetition with `Unit`.
pub open spec fn repeat<T>(item: spec_fn(Seq<char>) -> Outcome<T>, input: Seq<char>) -> Outcome<
    Seq<T>,
>
    decreases input.len(),
{
    match item(input) {
        Ok((value, mid)) => if mid.len() < input.len() {
            match repeat(item, mid) {
                Ok((values, rest)) => Ok((seq![value] + values, rest)),
                Err(error) => Err(error),
            }
        } else {
            Err(ParseError::Unit)
        },
        Err(_) => Ok((Seq::empty(), input)),
    }
}

/// A sequence of two parsers computes the sequence of what they compute.
pub proof fn chain_follows<A: DeepView + 'static, B: DeepView + 'static>(
    chained: Parser<(A, B)>,
    first: Parser<A>,
    second: Parser<B>,
    fa: spec_fn(Seq<char>) -> Outcome<A::V>,
    fb: spec_fn(Seq<char>) -> Outcome<B::V>,
)
    requires
        follows(first, fa),
        follows(second, fb),
        forall|input: Seq<char>, outcome: Outcome<(A, B)>| #[trigger]
            chained.admits(input, outcome) ==> chain_admits(first, second, input, outcome),
    ensures
        follows(chained, |input: Seq<char>| then(fa(input), fb)),
{
    assert forall|input: Seq<char>, outcome: Outcome<(A, B)>| #[trigger]
        chained.admits(input, outcome) implies deep(outcome) == then(fa(input), fb) by {
        match outcome {
            Ok(((a, b), rest)) => {
                let mid = choose|mid: Seq<char>| #[trigger]
                    first.admits(input, Ok((a, mid))) && second.admits(mid, Ok((b, rest)));
            },
            Err(error) => {
                chain_fails_follows(first, second, fa, fb, input, error);
            },
        }
    }
}

/// Where a sequence of two parsers fails, the sequence of what they compute
/// fails with the same failure.
proof fn chain_fails_follows<A: DeepView + 'static, B: DeepView + 'static>(
    first: Parser<A>,
    second: Parser<B>,
    fa: spec_fn(Seq<char>) -> Outcome<A::V>,
    fb: spec_fn(Seq<char>) -> Outcome<B::V>,
    input: Seq<char>,
    error: ParseError,
)
    requires
        follows(first, fa),
        follows(second, fb),
        chain_fails(first, second, input, error),
    ensures
        then(fa(input), fb) == Err::<((A::V, B::V), Seq<char>), ParseError>(error),
{
    if !first.admits(input, Err(error)) {
        let mid = choose|mid: Seq<char>| #[trigger]
            passes(first, input, mid) && second.admits(mid, Err(error));
        let a = choose|a: A| #[trigger] first.admits(input, Ok((a, mid)));
    }
}

/// A sequence that keeps its first value computes the same of what its
/// parsers compute.
pub proof fn left_follows<A: DeepView + 'static, B: DeepView + 'static>(
    kept: Parser<A>,
    first: Parser<A>,
    second: Parser<B>,
    fa: spec_fn(Seq<char>) -> Outcome<A::V>,
    fb: spec_fn(Seq<char>) -> Outcome<B::V>,
)
    requires
        follows(first, fa),
        follows(second, fb),
        forall|input: Seq<char>, outcome: Outcome<A>| #[trigger]
            kept.admits(input, outcome) ==> left_admits(first, second, input, outcome),
    ensures
        follows(kept, |input: Seq<char>| then_skip(fa(input), fb)),
{
    assert forall|input: Seq<char>, outcome: Outcome<A>| #[trigger]
        kept.admits(input, outcome) implies deep(outcome) == then_skip(fa(input), fb) by {
        left_at(first, second, fa, fb, input, outcome);
    }
}

proof fn left_at<A: DeepView + 'static, B: DeepView + 'static>(
    first: Parser<A>,
    second: Parser<B>,
    fa: spec_fn(Seq<char>) -> Outcome<A::V>,
    fb: spec_fn(Seq<char>) -> Outcome<B::V>,
    input: Seq<char>,
    outcome: Outcome<A>,
)
    requires
        follows(first, fa),
        follows(second, fb),
        left_admits(first, second, input, outcome),
    ensures
        deep(outcome) == then_skip(fa(input), fb),
{
    match outcome {
        Ok((a, rest)) => {
            let mid = choose|mid: Seq<char>| #[trigger]
                first.admits(input, Ok((a, mid))) && passes(second, mid, rest);
            let b = choose|b: B| #[trigger] second.admits(mid, Ok((b, rest)));
        },
        Err(error) => {
            chain_fails_follows(first, second, fa, fb, input, error);
        },
    }
}

/// A sequence that keeps its second value computes the same of what its
/// parsers compute.
pub proof fn right_follows<A: DeepView + 'static, B: DeepView + 'static>(
    kept: Parser<B>,
    first: Parser<A>,
    second: Parser<B>,
    fa: spec_fn(Seq<char>) -> Outcome<A::V>,
    fb: spec_fn(Seq<char>) -> Outcome<B::V>,
)
    requires
        follows(first, fa),
        follows(second, fb),
        forall|input: Seq<char>, outcome: Outcome<B>| #[trigger]
            kept.admits(input, outcome) ==> right_admits(first, second, input, outcome),
    ensures
        follows(kept, |input: Seq<char>| skip_then(fa(input), fb)),
{
    assert forall|input: Seq<char>, outcome: Outcome<B>| #[trigger]
        kept.admits(input, outcome) implies deep(outcome) == skip_then(fa(input), fb) by {
        match outcome {
            Ok((b, rest)) => {
                let mid = choose|mid: Seq<char>| #[trigger]
                    passes(first, input, mid) && second.admits(mid, Ok((b, rest)));
                let a = choose|a: A| #[trigger] first.admits(input, Ok((a, mid)));
            },
            Err(error) => {
                chain_fails_follows(first, second, fa, fb, input, error);
            },
        }
    }
}

/// A parser between two others computes what it computes between what they
/// compute.
pub proof fn between_follows<A: DeepView + 'static, T: DeepView + 'static, C: DeepView + 'static>(
    enclosed: Parser<T>,
    open: Parser<A>,
    inner: Parser<T>,
    close: Parser<C>,
    fa: spec_fn(Seq<char>) -> Outcome<A::V>,
    ft: spec_fn(Seq<char>) -> Outcome<T::V>,
    fc: spec_fn(Seq<char>) -> Outcome<C::V>,
)
    requires
        follows(open, fa),
        follows(inner, ft),
        follows(close, fc),
        forall|input: Seq<char>, outcome: Outcome<T>| #[trigger]
            enclosed.admits(input, outcome) ==> between_admits(open, inner, close, input, outcome),
    ensures
        follows(
            enclosed,
            |input: Seq<char>| skip_then(fa(input), |from: Seq<char>| then_skip(ft(from), fc)),
        ),
{
    assert forall|input: Seq<char>, outcome: Outcome<T>| #[trigger]
        enclosed.admits(input, outcome) implies deep(outcome) == skip_then(
        fa(input),
        |from: Seq<char>| then_skip(ft(from), fc),
    ) by {
        match outcome {
            Ok((value, rest)) => {
                let (from, to) = choose|from: Seq<char>, to: Seq<char>|
                    passes(open, input, from) && #[trigger] inner.admits(from, Ok((value, to)))
                        && passes(close, to, rest);
                let a = choose|a: A| #[trigger] open.admits(input, Ok((a, from)));
                let c = choose|c: C| #[trigger] close.admits(to, Ok((c, rest)));
            },
            Err(error) => {
                if !open.admits(input, Err(error)) {
                    let from = choose|from: Seq<char>| #[trigger]
                        passes(open, input, from) && left_admits(inner, close, from, Err(error));
                    let a = choose|a: A| #[trigger] open.admits(input, Ok((a, from)));
                    left_at(inner, close, ft, fc, from, Err(error));
                }
            },
        }
    }
}

/// An alternation computes the alternation of what its branches compute.
pub proof fn or_follows<T: DeepView + 'static>(
    either: Parser<T>,
    first: Parser<T>,
    second: Parser<T>,
    fa: spec_fn(Seq<char>) -> Outcome<T::V>,
    fb: spec_fn(Seq<char>) -> Outcome<T::V>,
)
    requires
        follows(first, fa),
        follows(second, fb),
        forall|input: Seq<char>, outcome: Outcome<T>| #[trigger]
            either.admits(input, outcome) ==> or_admits(first, second, input, outcome),
    ensures
        follows(either, |input: Seq<char>| or_else(fa(input), fb(input))),
{
    assert forall|input: Seq<char>, outcome: Outcome<T>| #[trigger]
        either.admits(input, outcome) implies deep(outcome) == or_else(fa(input), fb(input)) by {
        if !(outcome is Ok && first.admits(input, outcome)) {
            let (earlier, later) = choose|earlier: ParseError, later: Outcome<T>|
                #![trigger first.admits(input, Err(earlier)), second.admits(input, later)]
                first.admits(input, Err(earlier)) && second.admits(input, later) && outcome
                    == after_failure(earlier, later);
        }
    }
}

/// An optional parser computes the optional of what its parser computes.
pub proof fn maybe_follows<T: DeepView + 'static>(
    optionally: Parser<Option<T>>,
    item: Parser<T>,
    f: spec_fn(Seq<char>) -> Outcome<T::V>,
)
    requires
        follows(item, f),
        forall|input: Seq<char>, outcome: Outcome<Option<T>>| #[trigger]
            optionally.admits(input, outcome) ==> maybe_admits(item, input, outcome),
    ensures
        follows(optionally, |input: Seq<char>| optional(f(input), input)),
{
    assert forall|input: Seq<char>, outcome: Outcome<Option<T>>| #[trigger]
        optionally.admits(input, outcome) implies deep(outcome) == optional(f(input), input) by {
        match outcome {
            Ok((Some(value), rest)) => {},
            Ok((None, rest)) => {
                let error = choose|error: ParseError| #[trigger] item.admits(input, Err(error));
            },
            Err(_) => {},
        }
    }
}

/// A mapped parser computes what its parser computes, passed through what
/// the function computes.
pub proof fn map_follows<T: DeepView + 'static, O: DeepView + 'static, F: Fn(T) -> O>(
    made: Parser<O>,
    inner: Parser<T>,
    f: F,
    model: spec_fn(Seq<char>) -> Outcome<T::V>,
    g: spec_fn(T::V) -> O::V,
)
    requires
        follows(inner, model),
        forall|value: T, out: O| #[trigger]
            call_ensures(f, (value,), out) ==> out.deep_view() == g(value.deep_view()),
        forall|input: Seq<char>, outcome: Outcome<O>| #[trigger]
            made.admits(input, outcome) ==> map_admits(inner, f, input, outcome),
    ensures
        follows(made, |input: Seq<char>| mapped(model(input), g)),
{
    assert forall|input: Seq<char>, outcome: Outcome<O>| #[trigger]
        made.admits(input, outcome) implies deep(outcome) == mapped(model(input), g) by {
        match outcome {
            Ok((out, rest)) => {
                let value = choose|value: T| #[trigger]
                    inner.admits(input, Ok((value, rest))) && call_ensures(f, (value,), out);
            },
            Err(error) => {},
        }
    }
}

/// A repetition computes the repetition of what its parser computes.
pub proof fn many_follows<T: DeepView + 'static>(
    repeated: Parser<Vec<T>>,
    item: Parser<T>,
    f: spec_fn(Seq<char>) -> Outcome<T::V>,
)
    requires
        follows(item, f),
        forall|input: Seq<char>, outcome: Outcome<Vec<T>>| #[trigger]
            repeated.admits(input, outcome) ==> many_admits(item, input, listed(outcome)),
    ensures
        follows(repeated, |input: Seq<char>| repeat(f, input)),
{
    assert forall|input: Seq<char>, outcome: Outcome<Vec<T>>| #[trigger]
        repeated.admits(input, outcome) implies deep(outcome) == repeat(f, input) by {
        match outcome {
            Ok((values, rest)) => {
                many_yields_follows(item, f, input, values@, rest);
                assert(values.deep_view() =~= values@.map_values(|value: T| value.deep_view()));
            },
            Err(error) => {
                many_fails_follows(item, f, input, error);
            },
        }
    }
}

/// Where a repetition yields values, the repetition of what its parser
/// computes yields what they stand for.
proof fn many_yields_follows<T: DeepView + 'static>(
    item: Parser<T>,
    f: spec_fn(Seq<char>) -> Outcome<T::V>,
    input: Seq<char>,
    values: Seq<T>,
    rest: Seq<char>,
)
    requires
        follows(item, f),
        many_yields(item, input, values, rest),
    ensures
        repeat(f, input) == Ok::<(Seq<T::V>, Seq<char>), ParseError>(
            (values.map_values(|value: T| value.deep_view()), rest),
        ),
    decreases input.len(),
{
    let seen = values.map_values(|value: T| value.deep_view());
    if values.len() == 0 {
        let error = choose|error: ParseError| #[trigger] item.admits(input, Err(error));
        assert(seen =~= Seq::<T::V>::empty());
    } else {
        let mid = choose|mid: Seq<char>| #[trigger]
            item.admits(input, Ok((values[0], mid))) && mid.len() < input.len() && many_yields(
                item,
                mid,
                values.drop_first(),
                rest,
            );
        many_yields_follows(item, f, mid, values.drop_first(), rest);
        let later = values.drop_first().map_values(|value: T| value.deep_view());
        assert(seen =~= seq![values[0].deep_view()] + later);
    }
}

/// Where a repetition fails, the repetition of what its parser computes
/// fails with the same failure.
proof fn many_fails_follows<T: DeepView + 'static>(
    item: Parser<T>,
    f: spec_fn(Seq<char>) -> Outcome<T::V>,
    input: Seq<char>,
    error: ParseError,
)
    requires
        follows(item, f),
        many_fails(item, input, error),
    ensures
        repeat(f, input) == Err::<(Seq<T::V>, Seq<char>), ParseError>(error),
    decreases input.len(),
{
    if error == ParseError::Unit && item_stalls(item, input) {
        let (value, rest) = choose|value: T, rest: Seq<char>| #[trigger]
            item.admits(input, Ok((value, rest))) && rest.len() >= input.len();
    } else {
        let (value, mid) = choose|value: T, mid: Seq<char>| #[trigger]
            item.admits(input, Ok((value, mid))) && mid.len() < input.len() && many_fails(
                item,
                mid,
                error,
            );
        many_fails_follows(item, f, mid, error);
    }
}

/// A function used as a parser computes what the function computes.
pub proof fn fn_follows<T: DeepView + 'static, F: Fn(String) -> Result<(T, String), ParseError>>(
    made: Parser<T>,
    f: F,
    model: spec_fn(Seq<char>) -> Outcome<T::V>,
)
    requires
        forall|given: String, r: Result<(T, String), ParseError>| #[trigger]
            call_ensures(f, (given,), r) ==> deep(outcome_of(r)) == model(given@),
        forall|input: Seq<char>, outcome: Outcome<T>| #[trigger]
            made.admits(input, outcome) ==> fn_admits(f, input, outcome),
    ensures
        follows(made, model),
{
}

/// Two functions that agree on every input repeat alike.
pub proof fn repeat_agrees<T>(
    f: spec_fn(Seq<char>) -> Outcome<T>,
    g: spec_fn(Seq<char>) -> Outcome<T>,
    input: Seq<char>,
)
    requires
        forall|given: Seq<char>| #[trigger] f(given) == g(given),
    ensures
        repeat(f, input) == repeat(g, input),
    decreases input.len(),
{
    match f(input) {
        Ok((value, mid)) => {
            if mid.len() < input.len() {
                repeat_agrees(f, g, mid);
            }
        },
        Err(_) => {},
    }
}

} // verus!
