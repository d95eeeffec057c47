//! What each rule of the grammar computes, as a function of the input.

use vstd::prelude::*;
use crate::grammar::ast::{SpecExpression, SpecItem, SpecModule, SpecStatement, SpecType};
use crate::parser::error::ParseError;
use crate::parser::generators::{enclosed, identifier_outcome, run_of, symbol_outcome};
use crate::parser::model::{mapped, optional, or_else, repeat, skip_then, then, then_skip};
use crate::parser::text::{alphanumeric_chars, digit_chars, is_digit, skip_all, take_all};
use crate::parser::Outcome;

verus! {

/// The number that the decimal digits `digits` write.
pub open spec fn decimal(digits: Seq<char>) -> nat
    decreases digits.len(),
{
    if digits.len() == 0 {
        0
    } else {
        decimal(digits.drop_last()) * 10 + (digits.last() as nat - '0' as nat) as nat
    }
}

/// Whether `digits` holds decimal digits only.
pub open spec fn all_digits(digits: Seq<char>) -> bool {
    forall|k: int| 0 <= k < digits.len() ==> is_digit(#[trigger] digits[k])
}

/// The number that `digits` write, where they are decimal digits, at least
/// one, and the number fits 64 bits.
pub open spec fn number_of(digits: Seq<char>) -> Option<u64> {
    if digits.len() > 0 && all_digits(digits) && decimal(digits) <= u64::MAX {
        Some(decimal(digits) as u64)
    } else {
        None
    }
}

/// A type name.
pub open spec fn atomic_model(input: Seq<char>) -> Outcome<SpecType> {
    mapped(identifier_outcome(input), |name: Seq<char>| SpecType::Atomic(name))
}

/// `depth` pointers to `inner`, one in another.
pub open spec fn pointers(depth: nat, inner: SpecType) -> SpecType
    decreases depth,
{
    if depth == 0 {
        inner
    } else {
        SpecType::Pointer(Box::new(pointers((depth - 1) as nat, inner)))
    }
}

/// A type: a type name, or a star and the type that is pointed to. Where
/// neither is found, the greater of the two failures. A star that is found
/// always leaves less than the input, which is what lets the rule contain
/// itself.
pub open spec fn typ_model(input: Seq<char>) -> Outcome<SpecType>
    decreases input.len(),
{
    or_else(
        atomic_model(input),
        match symbol_outcome("*"@, input) {
            Ok((_, rest)) => if rest.len() < input.len() {
                mapped(typ_model(rest), |inner: SpecType| SpecType::Pointer(Box::new(inner)))
            } else {
                Err(ParseError::Unit)
            },
            Err(error) => Err(error),
        },
    )
}

/// A star and the type that is pointed to.
pub open spec fn pointer_model(input: Seq<char>) -> Outcome<SpecType> {
    mapped(
        skip_then(symbol_outcome("*"@, input), |rest: Seq<char>| typ_model(rest)),
        |inner: SpecType| SpecType::Pointer(Box::new(inner)),
    )
}

/// A text between double quotes, made of alphanumeric characters.
pub open spec fn str_literal_model(input: Seq<char>) -> Outcome<SpecExpression> {
    enclosed(
        "\""@,
        |from: Seq<char>|
            mapped(
                run_of(alphanumeric_chars(), from),
                |text: Seq<char>| SpecExpression::StringLiteral(text),
            ),
        "\""@,
        input,
    )
}

/// A run of decimal digits that write a number of 64 bits; `Unit` where
/// there is no digit or the number does not fit.
pub open spec fn num_literal_model(input: Seq<char>) -> Outcome<SpecExpression> {
    match number_of(take_all(digit_chars(), input)) {
        Some(value) => Ok((SpecExpression::NumericLiteral(value), skip_all(digit_chars(), input))),
        None => Err(ParseError::Unit),
    }
}

/// A text or a number.
pub open spec fn expression_model(input: Seq<char>) -> Outcome<SpecExpression> {
    or_else(str_literal_model(input), num_literal_model(input))
}

/// The first value, if there is one, before the others.
pub open spec fn listing<T>(head: Option<T>, rest: Seq<T>) -> Seq<T> {
    match head {
        Some(first) => seq![first] + rest,
        None => rest,
    }
}

/// An optional `item`, and then every `item` that follows a comma.
pub open spec fn separated<T>(item: spec_fn(Seq<char>) -> Outcome<T>, input: Seq<char>) -> Outcome<
    (Option<T>, Seq<T>),
> {
    then(
        optional(item(input), input),
        |mid: Seq<char>|
            repeat(|given: Seq<char>| skip_then(symbol_outcome(","@, given), item), mid),
    )
}

/// A function name and, between parentheses, the expressions that it is
/// called with, separated by commas.
pub open spec fn function_call_model(input: Seq<char>) -> Outcome<SpecStatement> {
    mapped(
        then(
            identifier_outcome(input),
            |mid: Seq<char>|
                enclosed(
                    "("@,
                    |from: Seq<char>| separated(|given: Seq<char>| expression_model(given), from),
                    ")"@,
                    mid,
                ),
        ),
        |call: (Seq<char>, (Option<SpecExpression>, Seq<SpecExpression>))|
            SpecStatement::FunctionCall(call.0, listing(call.1.0, call.1.1)),
    )
}

/// The keyword `return` and the expression that is returned.
pub open spec fn ret_model(input: Seq<char>) -> Outcome<SpecStatement> {
    mapped(
        skip_then(
            symbol_outcome("return"@, input),
            |given: Seq<char>| expression_model(given),
        ),
        |value: SpecExpression| SpecStatement::Return(value),
    )
}

/// A function call or a return, and the semicolon that ends it.
pub open spec fn statement_model(input: Seq<char>) -> Outcome<SpecStatement> {
    then_skip(
        or_else(function_call_model(input), ret_model(input)),
        |given: Seq<char>| symbol_outcome(";"@, given),
    )
}

/// A parameter: its name, a colon and its type.
pub open spec fn argument_model(input: Seq<char>) -> Outcome<(Seq<char>, SpecType)> {
    then(
        then_skip(identifier_outcome(input), |given: Seq<char>| symbol_outcome(":"@, given)),
        |given: Seq<char>| typ_model(given),
    )
}

/// The parameters of a function, separated by commas, with an optional
/// comma after the last.
pub open spec fn argument_parser_model(input: Seq<char>) -> Outcome<Seq<(Seq<char>, SpecType)>> {
    mapped(
        then_skip(
            separated(|given: Seq<char>| argument_model(given), input),
            |given: Seq<char>| optional(symbol_outcome(","@, given), given),
        ),
        |found: (Option<(Seq<char>, SpecType)>, Seq<(Seq<char>, SpecType)>)|
            listing(found.0, found.1),
    )
}

/// The name of a function, its parameters between parentheses, an arrow
/// and the type that it returns.
pub open spec fn signature_model(input: Seq<char>) -> Outcome<
    ((Seq<char>, Seq<(Seq<char>, SpecType)>), SpecType),
> {
    then(
        then_skip(
            then(
                identifier_outcome(input),
                |given: Seq<char>|
                    enclosed(
                        "("@,
                        |from: Seq<char>| argument_parser_model(from),
                        ")"@,
                        given,
                    ),
            ),
            |given: Seq<char>| symbol_outcome("->"@, given),
        ),
        |given: Seq<char>| typ_model(given),
    )
}

/// The keywords `ext` and `fn` and the signature of a function that is
/// defined elsewhere.
pub open spec fn extern_function_definition_model(input: Seq<char>) -> Outcome<SpecItem> {
    mapped(
        skip_then(
            then(symbol_outcome("ext"@, input), |given: Seq<char>| symbol_outcome("fn"@, given)),
            |given: Seq<char>| signature_model(given),
        ),
        |found: ((Seq<char>, Seq<(Seq<char>, SpecType)>), SpecType)|
            SpecItem::ExternFunctionDefinition(found.0.0, found.0.1, found.1),
    )
}

/// The keyword `fn`, the signature of a function and, between braces, the
/// statements of its body.
pub open spec fn function_declaration_model(input: Seq<char>) -> Outcome<SpecItem> {
    mapped(
        then(
            skip_then(
                symbol_outcome("fn"@, input),
                |given: Seq<char>| signature_model(given),
            ),
            |given: Seq<char>|
                enclosed(
                    "{"@,
                    |from: Seq<char>| repeat(|one: Seq<char>| statement_model(one), from),
                    "}"@,
                    given,
                ),
        ),
        |found: (((Seq<char>, Seq<(Seq<char>, SpecType)>), SpecType), Seq<SpecStatement>)|
            SpecItem::FunctionDeclaration(found.0.0.0, found.0.0.1, found.0.1, found.1),
    )
}

/// The definition of an outside function, or the declaration of a function.
pub open spec fn item_model(input: Seq<char>) -> Outcome<SpecItem> {
    or_else(extern_function_definition_model(input), function_declaration_model(input))
}

/// The module `name`: every item of the input that a semicolon ends.
pub open spec fn module_model(name: Seq<char>, input: Seq<char>) -> Outcome<SpecModule> {
    mapped(
        repeat(
            |given: Seq<char>|
                then_skip(item_model(given), |after: Seq<char>| symbol_outcome(";"@, after)),
            input,
        ),
        |items: Seq<SpecItem>| SpecModule(name, items),
    )
}

} // verus!
