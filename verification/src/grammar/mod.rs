//! The grammar of the language, written with the combinators: types,
//! expressions, statements, items, and the module that holds them.

pub mod ast;
pub mod model;

use vstd::prelude::*;
use crate::grammar::ast::{
    Expression, Item, Module, SpecExpression, SpecItem, SpecModule, SpecStatement, SpecType,
    Statement, Type, type_view,
};
use crate::grammar::model::{
    all_digits, argument_model, argument_parser_model, atomic_model, decimal, expression_model,
    extern_function_definition_model, function_call_model, function_declaration_model, item_model,
    listing, module_model, num_literal_model, number_of, pointer_model, pointers, ret_model,
    separated, signature_model, statement_model, str_literal_model, typ_model,
};
use crate::parser::error::{ParseError, greater_is_least_upper_bound};
use crate::parser::generators::{
    alphanum, between, digit, enclosed, identifier, identifier_outcome, many_of_class,
    qualify_follows, run_follows, run_of, symbol, symbol_consumes, symbol_outcome,
};
use crate::parser::model::{
    between_follows, chain_follows, fn_follows, left_follows, many_follows, map_follows, mapped,
    maybe_follows, optional, or_else, or_follows, repeat, right_follows, skip_then, then,
    then_skip,
};
use crate::parser::text::{alphanumeric_chars, digit_chars, is_digit, range_holds};
use crate::parser::{Outcome, Parser, deep, follows, listed, outcome_of};

verus! {

/// Parses a type name.
pub fn atomic() -> (p: Parser<Type>)
    ensures
        follows(p, |input: Seq<char>| atomic_model(input)),
{
    let name = identifier();
    let wrap = |name: String| -> (made: Type)
        ensures
            made == Type::Atomic(name),
        { Type::Atomic(name) };
    let p = name.map(wrap);
    proof {
        map_follows(
            p,
            name,
            wrap,
            |input: Seq<char>| identifier_outcome(input),
            |name: Seq<char>| SpecType::Atomic(name),
        );
    }
    p
}

/// A type is a type name or a pointer.
pub proof fn typ_unfolds(input: Seq<char>)
    ensures
        typ_model(input) == or_else(atomic_model(input), pointer_model(input)),
{
    reveal_strlit("*");
    if symbol_outcome("*"@, input) is Ok {
        symbol_consumes("*"@, input);
    }
}

/// A pointer to `depth` pointers is `depth` pointers and one more.
proof fn pointers_nest(depth: nat, inner: SpecType)
    ensures
        pointers(depth, SpecType::Pointer(Box::new(inner))) == pointers(depth + 1, inner),
    decreases depth,
{
    if depth > 0 {
        pointers_nest((depth - 1) as nat, inner);
        assert(pointers(depth + 1, inner) == SpecType::Pointer(
            Box::new(pointers(depth, inner)),
        ));
    } else {
        assert(pointers(0, inner) == inner);
        assert(pointers(1, inner) == SpecType::Pointer(Box::new(pointers(0, inner))));
    }
}

/// `depth` pointers to `inner`, one in another.
fn nest(inner: Type, depth: usize) -> (made: Type)
    ensures
        type_view(made) == pointers(depth as nat, type_view(inner)),
{
    let ghost innermost = type_view(inner);
    let mut made = inner;
    let mut done: usize = 0;
    while done < depth
        invariant
            done <= depth,
            type_view(made) == pointers(done as nat, innermost),
        decreases depth - done,
    {
        made = Type::Pointer(Box::new(made));
        done = done + 1;
    }
    made
}

/// What a type comes to after `depth` stars, given what the type after
/// them comes to and the greatest failure of a type name before them.
pub open spec fn after_stars(
    depth: nat,
    worst: Option<ParseError>,
    inner: Outcome<SpecType>,
) -> Outcome<SpecType> {
    match inner {
        Ok((pointed, rest)) => Ok((pointers(depth, pointed), rest)),
        Err(error) => Err(
            match worst {
                Some(earlier) => earlier.greater(error),
                None => error,
            },
        ),
    }
}

/// Parses a type: a type name behind any number of stars, each of which
/// makes a pointer. The rule contains itself, so it descends through the
/// stars in a loop and reports what the alternation of a name and a pointer
/// reports at every level.
pub fn typ() -> (p: Parser<Type>)
    ensures
        follows(p, |input: Seq<char>| typ_model(input)),
{
    let descend = move |input: String| -> (r: Result<(Type, String), ParseError>)
        ensures
            deep(outcome_of(r)) == typ_model(input@),
        {
            let name = atomic();
            let star = symbol("*");
            let length = input.as_str().unicode_len();
            let mut rest = input;
            let mut depth: usize = 0;
            let mut worst: Option<ParseError> = None;
            loop
                invariant
                    follows(name, |given: Seq<char>| atomic_model(given)),
                    follows(star, |given: Seq<char>| symbol_outcome("*"@, given)),
                    length == input@.len(),
                    depth + rest@.len() <= length,
                    typ_model(input@) == after_stars(depth as nat, worst, typ_model(rest@)),
                decreases rest@.len(),
            {
                proof {
                    typ_unfolds(rest@);
                }
                match name.parse(rest.as_str()) {
                    Ok((named, left)) => {
                        return Ok((nest(named, depth), left));
                    },
                    Err(missing) => {
                        match star.parse(rest.as_str()) {
                            Ok((_, next)) => {
                                proof {
                                    reveal_strlit("*");
                                    symbol_consumes("*"@, rest@);
                                    let later = typ_model(next@);
                                    match later {
                                        Ok((pointed, last)) => {
                                            pointers_nest(depth as nat, pointed);
                                        },
                                        Err(error) => {
                                            if worst is Some {
                                                greater_is_least_upper_bound(
                                                    worst->Some_0,
                                                    missing,
                                                    error,
                                                );
                                            }
                                        },
                                    }
                                }
                                worst = Some(
                                    match worst {
                                        Some(earlier) => earlier.max(missing),
                                        None => missing,
                                    },
                                );
                                depth = depth + 1;
                                rest = next;
                            },
                            Err(unstarred) => {
                                let last = missing.max(unstarred);
                                return Err(
                                    match worst {
                                        Some(earlier) => earlier.max(last),
                                        None => last,
                                    },
                                );
                            },
                        }
                    },
                }
            }
        };
    let p = Parser::new(descend);
    proof {
        fn_follows(p, descend, |input: Seq<char>| typ_model(input));
    }
    p
}

/// Parses a pointer: a star and the type that is pointed to.
pub fn pointer() -> (p: Parser<Type>)
    ensures
        follows(p, |input: Seq<char>| pointer_model(input)),
{
    let star = symbol("*");
    let pointed = typ();
    let inner = star.right(pointed);
    let wrap = |inner: Type| -> (made: Type)
        ensures
            made == Type::Pointer(Box::new(inner)),
        { Type::Pointer(Box::new(inner)) };
    let p = inner.map(wrap);
    proof {
        right_follows(
            inner,
            star,
            pointed,
            |given: Seq<char>| symbol_outcome("*"@, given),
            |given: Seq<char>| typ_model(given),
        );
        map_follows(
            p,
            inner,
            wrap,
            |input: Seq<char>|
                skip_then(symbol_outcome("*"@, input), |given: Seq<char>| typ_model(given)),
            |inner: SpecType| SpecType::Pointer(Box::new(inner)),
        );
    }
    p
}

/// Parses a text between double quotes.
pub fn str_literal() -> (p: Parser<Expression>)
    ensures
        follows(p, |input: Seq<char>| str_literal_model(input)),
{
    let open = symbol("\"");
    let close = symbol("\"");
    let one = alphanum();
    let run = one.many();
    let text = run.qualify();
    let wrap = |text: String| -> (made: Expression)
        ensures
            made == Expression::StringLiteral(text),
        { Expression::StringLiteral(text) };
    let literal = text.map(wrap);
    let p = between(open, literal, close);
    proof {
        range_holds('a', 'z');
        run_follows(run, one, alphanumeric_chars());
        qualify_follows(text, run, |input: Seq<char>| run_of(alphanumeric_chars(), input));
        map_follows(
            literal,
            text,
            wrap,
            |input: Seq<char>| run_of(alphanumeric_chars(), input),
            |text: Seq<char>| SpecExpression::StringLiteral(text),
        );
        between_follows(
            p,
            open,
            literal,
            close,
            |given: Seq<char>| symbol_outcome("\""@, given),
            |from: Seq<char>|
                mapped(
                    run_of(alphanumeric_chars(), from),
                    |text: Seq<char>| SpecExpression::StringLiteral(text),
                ),
            |given: Seq<char>| symbol_outcome("\""@, given),
        );
    }
    p
}

/// The number that a prefix of digits writes is at most the number that all
/// of them write.
proof fn decimal_grows(digits: Seq<char>, n: int)
    requires
        0 <= n <= digits.len(),
    ensures
        decimal(digits.take(n)) <= decimal(digits),
    decreases digits.len() - n,
{
    if n == digits.len() {
        assert(digits.take(n) =~= digits);
    } else {
        let shorter = digits.drop_last();
        assert(shorter.take(n) =~= digits.take(n));
        decimal_grows(shorter, n);
    }
}

/// The number that `digits` write, where they are decimal digits, at least
/// one, and the number fits 64 bits.
pub fn to_number(digits: &Vec<char>) -> (value: Option<u64>)
    ensures
        value == number_of(digits@),
{
    if digits.len() == 0 {
        return None;
    }
    let mut total: u64 = 0;
    let mut at: usize = 0;
    assert(digits@.take(0) =~= Seq::<char>::empty());
    while at < digits.len()
        invariant
            at <= digits.len(),
            total == decimal(digits@.take(at as int)),
            all_digits(digits@.take(at as int)),
        decreases digits.len() - at,
    {
        let one = digits[at];
        let ghost longer = digits@.take(at as int + 1);
        assert(longer.drop_last() =~= digits@.take(at as int));
        assert(longer.last() == one);
        if one < '0' || one > '9' {
            assert(!is_digit(digits@[at as int]));
            return None;
        }
        let units = one as u64 - 48;
        if total > (u64::MAX - units) / 10 {
            proof {
                decimal_grows(digits@, at as int + 1);
            }
            return None;
        }
        total = total * 10 + units;
        proof {
            assert forall|k: int| 0 <= k < longer.len() implies is_digit(#[trigger] longer[k]) by {
                if k < at {
                    assert(longer[k] == digits@.take(at as int)[k]);
                }
            }
        }
        at = at + 1;
    }
    assert(digits@.take(at as int) =~= digits@);
    Some(total)
}

/// Parses a number: a run of decimal digits. It fails with `Unit` where
/// there is no digit or the number does not fit 64 bits.
pub fn num_literal() -> (p: Parser<Expression>)
    ensures
        follows(p, |input: Seq<char>| num_literal_model(input)),
{
    let convert = move |input: String| -> (r: Result<(Expression, String), ParseError>)
        ensures
            deep(outcome_of(r)) == num_literal_model(input@),
        {
            let one = digit();
            let run = one.many();
            let found = run.parse(input.as_str());
            proof {
                range_holds('0', '9');
                many_of_class(one, digit_chars(), input@, listed(outcome_of(found)));
            }
            match found {
                Ok((digits, rest)) => match to_number(&digits) {
                    Some(value) => Ok((Expression::NumericLiteral(value), rest)),
                    None => Err(ParseError::Unit),
                },
                Err(_) => Err(ParseError::Unit),
            }
        };
    let p = Parser::new(convert);
    proof {
        fn_follows(p, convert, |input: Seq<char>| num_literal_model(input));
    }
    p
}

/// Parses an expression: a text or a number.
pub fn expression() -> (p: Parser<Expression>)
    ensures
        follows(p, |input: Seq<char>| expression_model(input)),
{
    let text = str_literal();
    let number = num_literal();
    let p = text.or(number);
    proof {
        or_follows(
            p,
            text,
            number,
            |input: Seq<char>| str_literal_model(input),
            |input: Seq<char>| num_literal_model(input),
        );
    }
    p
}

/// The first value, if there is one, before the others.
fn prepend<T: DeepView>(head: Option<T>, rest: Vec<T>) -> (all: Vec<T>)
    ensures
        all@ == listing(head, rest@),
        all.deep_view() == listing(head.deep_view(), rest.deep_view()),
{
    match head {
        Some(first) => {
            let ghost later = rest;
            let mut all = rest;
            all.insert(0, first);
            proof {
                assert(all@ =~= seq![first] + later@);
                assert(all.deep_view() =~= seq![first.deep_view()] + later.deep_view());
            }
            all
        },
        None => rest,
    }
}

/// An optional `item`, and then every `item` that follows a comma.
fn separated_by_commas<T: DeepView + Clone + 'static>(
    item: Parser<T>,
    Ghost(f): Ghost<spec_fn(Seq<char>) -> Outcome<T::V>>,
) -> (p: Parser<(Option<T>, Vec<T>)>)
    requires
        follows(item, f),
    ensures
        follows(p, |input: Seq<char>| separated(f, input)),
{
    let first = item.clone();
    let head = first.maybe();
    let comma = symbol(",");
    let next = comma.right(item);
    let rest = next.many();
    let p = head.chain(rest);
    proof {
        maybe_follows(head, first, f);
        right_follows(next, comma, item, |given: Seq<char>| symbol_outcome(","@, given), f);
        many_follows(
            rest,
            next,
            |given: Seq<char>| skip_then(symbol_outcome(","@, given), f),
        );
        chain_follows(
            p,
            head,
            rest,
            |input: Seq<char>| optional(f(input), input),
            |mid: Seq<char>|
                repeat(|given: Seq<char>| skip_then(symbol_outcome(","@, given), f), mid),
        );
    }
    p
}

/// Parses the call of a function on the expressions between its
/// parentheses.
pub fn function_call() -> (p: Parser<Statement>)
    ensures
        follows(p, |input: Seq<char>| function_call_model(input)),
{
    let name = identifier();
    let open = symbol("(");
    let close = symbol(")");
    let arguments = separated_by_commas(
        expression(),
        Ghost(|given: Seq<char>| expression_model(given)),
    );
    let inside = between(open, arguments, close);
    let call = name.chain(inside);
    let make = |call: (String, (Option<Expression>, Vec<Expression>))| -> (made: Statement)
        ensures
            made.deep_view() == SpecStatement::FunctionCall(
                call.0@,
                listing(call.1.0.deep_view(), call.1.1.deep_view()),
            ),
        {
            let (name, (head, rest)) = call;
            Statement::FunctionCall(name, prepend(head, rest))
        };
    let p = call.map(make);
    proof {
        between_follows(
            inside,
            open,
            arguments,
            close,
            |given: Seq<char>| symbol_outcome("("@, given),
            |from: Seq<char>| separated(|given: Seq<char>| expression_model(given), from),
            |given: Seq<char>| symbol_outcome(")"@, given),
        );
        chain_follows(
            call,
            name,
            inside,
            |input: Seq<char>| identifier_outcome(input),
            |mid: Seq<char>|
                enclosed(
                    "("@,
                    |from: Seq<char>| separated(|given: Seq<char>| expression_model(given), from),
                    ")"@,
                    mid,
                ),
        );
        map_follows(
            p,
            call,
            make,
            |input: Seq<char>|
                then(
                    identifier_outcome(input),
                    |mid: Seq<char>|
                        enclosed(
                            "("@,
                            |from: Seq<char>|
                                separated(|given: Seq<char>| expression_model(given), from),
                            ")"@,
                            mid,
                        ),
                ),
            |call: (Seq<char>, (Option<SpecExpression>, Seq<SpecExpression>))|
                SpecStatement::FunctionCall(call.0, listing(call.1.0, call.1.1)),
        );
    }
    p
}

/// Parses the return of an expression.
pub fn ret() -> (p: Parser<Statement>)
    ensures
        follows(p, |input: Seq<char>| ret_model(input)),
{
    let keyword = symbol("return");
    let value = expression();
    let returned = keyword.right(value);
    let make = |value: Expression| -> (made: Statement)
        ensures
            made == Statement::Return(value),
        { Statement::Return(value) };
    let p = returned.map(make);
    proof {
        right_follows(
            returned,
            keyword,
            value,
            |given: Seq<char>| symbol_outcome("return"@, given),
            |given: Seq<char>| expression_model(given),
        );
        map_follows(
            p,
            returned,
            make,
            |input: Seq<char>|
                skip_then(
                    symbol_outcome("return"@, input),
                    |given: Seq<char>| expression_model(given),
                ),
            |value: SpecExpression| SpecStatement::Return(value),
        );
    }
    p
}

/// Parses a statement and the semicolon that ends it.
pub fn statement() -> (p: Parser<Statement>)
    ensures
        follows(p, |input: Seq<char>| statement_model(input)),
{
    let call = function_call();
    let returned = ret();
    let either = call.or(returned);
    let end = symbol(";");
    let p = either.left(end);
    proof {
        or_follows(
            either,
            call,
            returned,
            |input: Seq<char>| function_call_model(input),
            |input: Seq<char>| ret_model(input),
        );
        left_follows(
            p,
            either,
            end,
            |input: Seq<char>| or_else(function_call_model(input), ret_model(input)),
            |given: Seq<char>| symbol_outcome(";"@, given),
        );
    }
    p
}

/// A parameter: its name, a colon and its type.
fn argument() -> (p: Parser<(String, Type)>)
    ensures
        follows(p, |input: Seq<char>| argument_model(input)),
{
    let name = identifier();
    let colon = symbol(":");
    let named = name.left(colon);
    let of = typ();
    let p = named.chain(of);
    proof {
        left_follows(
            named,
            name,
            colon,
            |input: Seq<char>| identifier_outcome(input),
            |given: Seq<char>| symbol_outcome(":"@, given),
        );
        chain_follows(
            p,
            named,
            of,
            |input: Seq<char>|
                then_skip(
                    identifier_outcome(input),
                    |given: Seq<char>| symbol_outcome(":"@, given),
                ),
            |given: Seq<char>| typ_model(given),
        );
    }
    p
}

/// Parses the parameters of a function.
pub fn argument_parser() -> (p: Parser<Vec<(String, Type)>>)
    ensures
        follows(p, |input: Seq<char>| argument_parser_model(input)),
{
    let listed = separated_by_commas(argument(), Ghost(|given: Seq<char>| argument_model(given)));
    let comma = symbol(",");
    let trailing = comma.maybe();
    let all = listed.left(trailing);
    let gather = |found: (Option<(String, Type)>, Vec<(String, Type)>)| -> (made: Vec<
        (String, Type),
    >)
        ensures
            made.deep_view() == listing(found.0.deep_view(), found.1.deep_view()),
        {
            let (head, rest) = found;
            prepend(head, rest)
        };
    let p = all.map(gather);
    proof {
        maybe_follows(trailing, comma, |given: Seq<char>| symbol_outcome(","@, given));
        left_follows(
            all,
            listed,
            trailing,
            |input: Seq<char>| separated(|given: Seq<char>| argument_model(given), input),
            |given: Seq<char>| optional(symbol_outcome(","@, given), given),
        );
        map_follows(
            p,
            all,
            gather,
            |input: Seq<char>|
                then_skip(
                    separated(|given: Seq<char>| argument_model(given), input),
                    |given: Seq<char>| optional(symbol_outcome(","@, given), given),
                ),
            |found: (Option<(Seq<char>, SpecType)>, Seq<(Seq<char>, SpecType)>)|
                listing(found.0, found.1),
        );
    }
    p
}

/// The name of a function, its parameters between parentheses, an arrow
/// and the type that it returns.
fn signature() -> (p: Parser<((String, Vec<(String, Type)>), Type)>)
    ensures
        follows(p, |input: Seq<char>| signature_model(input)),
{
    let name = identifier();
    let open = symbol("(");
    let close = symbol(")");
    let parameters = argument_parser();
    let inside = between(open, parameters, close);
    let head = name.chain(inside);
    let arrow = symbol("->");
    let before = head.left(arrow);
    let result = typ();
    let p = before.chain(result);
    proof {
        between_follows(
            inside,
            open,
            parameters,
            close,
            |given: Seq<char>| symbol_outcome("("@, given),
            |from: Seq<char>| argument_parser_model(from),
            |given: Seq<char>| symbol_outcome(")"@, given),
        );
        chain_follows(
            head,
            name,
            inside,
            |input: Seq<char>| identifier_outcome(input),
            |given: Seq<char>|
                enclosed("("@, |from: Seq<char>| argument_parser_model(from), ")"@, given),
        );
        left_follows(
            before,
            head,
            arrow,
            |input: Seq<char>|
                then(
                    identifier_outcome(input),
                    |given: Seq<char>|
                        enclosed(
                            "("@,
                            |from: Seq<char>| argument_parser_model(from),
                            ")"@,
                            given,
                        ),
                ),
            |given: Seq<char>| symbol_outcome("->"@, given),
        );
        chain_follows(
            p,
            before,
            result,
            |input: Seq<char>|
                then_skip(
                    then(
                        identifier_outcome(input),
                        |given: Seq<char>|
                            enclosed(
                                "("@,
                                |from: Seq<char>| argument_parser_model(from),
                                ")"@,
                                given,
                            ),
                    ),
                    |given: Seq<char>| symbol_outcome("->"@, given),
                ),
            |given: Seq<char>| typ_model(given),
        );
    }
    p
}

/// Parses the definition of a function that lives outside the module.
pub fn extern_function_definition() -> (p: Parser<Item>)
    ensures
        follows(p, |input: Seq<char>| extern_function_definition_model(input)),
{
    let outside = symbol("ext");
    let function = symbol("fn");
    let keywords = outside.chain(function);
    let signed = signature();
    let defined = keywords.right(signed);
    let make = |found: ((String, Vec<(String, Type)>), Type)| -> (made: Item)
        ensures
            made == Item::ExternFunctionDefinition(found.0.0, found.0.1, found.1),
        {
            let ((name, parameters), result) = found;
            Item::ExternFunctionDefinition(name, parameters, result)
        };
    let p = defined.map(make);
    proof {
        chain_follows(
            keywords,
            outside,
            function,
            |given: Seq<char>| symbol_outcome("ext"@, given),
            |given: Seq<char>| symbol_outcome("fn"@, given),
        );
        right_follows(
            defined,
            keywords,
            signed,
            |input: Seq<char>|
                then(
                    symbol_outcome("ext"@, input),
                    |given: Seq<char>| symbol_outcome("fn"@, given),
                ),
            |given: Seq<char>| signature_model(given),
        );
        map_follows(
            p,
            defined,
            make,
            |input: Seq<char>|
                skip_then(
                    then(
                        symbol_outcome("ext"@, input),
                        |given: Seq<char>| symbol_outcome("fn"@, given),
                    ),
                    |given: Seq<char>| signature_model(given),
                ),
            |found: ((Seq<char>, Seq<(Seq<char>, SpecType)>), SpecType)|
                SpecItem::ExternFunctionDefinition(found.0.0, found.0.1, found.1),
        );
    }
    p
}

/// Parses the declaration of a function with its body.
pub fn function_declaration() -> (p: Parser<Item>)
    ensures
        follows(p, |input: Seq<char>| function_declaration_model(input)),
{
    let function = symbol("fn");
    let signed = signature();
    let declared = function.right(signed);
    let open = symbol("{");
    let close = symbol("}");
    let one = statement();
    let statements = one.many();
    let body = between(open, statements, close);
    let whole = declared.chain(body);
    let make = |found: (((String, Vec<(String, Type)>), Type), Vec<Statement>)| -> (made: Item)
        ensures
            made == Item::FunctionDeclaration(found.0.0.0, found.0.0.1, found.0.1, found.1),
        {
            let (((name, parameters), result), body) = found;
            Item::FunctionDeclaration(name, parameters, result, body)
        };
    let p = whole.map(make);
    proof {
        right_follows(
            declared,
            function,
            signed,
            |given: Seq<char>| symbol_outcome("fn"@, given),
            |given: Seq<char>| signature_model(given),
        );
        many_follows(statements, one, |given: Seq<char>| statement_model(given));
        between_follows(
            body,
            open,
            statements,
            close,
            |given: Seq<char>| symbol_outcome("{"@, given),
            |from: Seq<char>| repeat(|given: Seq<char>| statement_model(given), from),
            |given: Seq<char>| symbol_outcome("}"@, given),
        );
        chain_follows(
            whole,
            declared,
            body,
            |input: Seq<char>|
                skip_then(
                    symbol_outcome("fn"@, input),
                    |given: Seq<char>| signature_model(given),
                ),
            |given: Seq<char>|
                enclosed(
                    "{"@,
                    |from: Seq<char>| repeat(|one: Seq<char>| statement_model(one), from),
                    "}"@,
                    given,
                ),
        );
        map_follows(
            p,
            whole,
            make,
            |input: Seq<char>|
                then(
                    skip_then(
                        symbol_outcome("fn"@, input),
                        |given: Seq<char>| signature_model(given),
                    ),
                    |given: Seq<char>|
                        enclosed(
                            "{"@,
                            |from: Seq<char>| repeat(|one: Seq<char>| statement_model(one), from),
                            "}"@,
                            given,
                        ),
                ),
            |found: (((Seq<char>, Seq<(Seq<char>, SpecType)>), SpecType), Seq<SpecStatement>)|
                SpecItem::FunctionDeclaration(found.0.0.0, found.0.0.1, found.0.1, found.1),
        );
    }
    p
}

/// Parses a top-level item.
pub fn item() -> (p: Parser<Item>)
    ensures
        follows(p, |input: Seq<char>| item_model(input)),
{
    let outside = extern_function_definition();
    let declared = function_declaration();
    let p = outside.or(declared);
    proof {
        or_follows(
            p,
            outside,
            declared,
            |input: Seq<char>| extern_function_definition_model(input),
            |input: Seq<char>| function_declaration_model(input),
        );
    }
    p
}

/// Parses a whole module: every item of the source that a semicolon ends.
/// What follows the last such item is left over.
pub fn module(name: String) -> (p: Parser<Module>)
    ensures
        follows(p, |input: Seq<char>| module_model(name@, input)),
{
    let one = item();
    let end = symbol(";");
    let ended = one.left(end);
    let items = ended.many();
    let make = move |items: Vec<Item>| -> (made: Module)
        ensures
            made.deep_view() == SpecModule(name@, items.deep_view()),
        { Module(name.clone(), items) };
    let p = items.map(make);
    proof {
        left_follows(
            ended,
            one,
            end,
            |input: Seq<char>| item_model(input),
            |given: Seq<char>| symbol_outcome(";"@, given),
        );
        many_follows(
            items,
            ended,
            |given: Seq<char>|
                then_skip(item_model(given), |after: Seq<char>| symbol_outcome(";"@, after)),
        );
        map_follows(
            p,
            items,
            make,
            |input: Seq<char>|
                repeat(
                    |given: Seq<char>|
                        then_skip(
                            item_model(given),
                            |after: Seq<char>| symbol_outcome(";"@, after),
                        ),
                    input,
                ),
            |items: Seq<SpecItem>| SpecModule(name@, items),
        );
    }
    p
}

} // verus!
