//! The first form of the language: a program is a list of functions without
//! parameters, whose statements call a function on a text or return a
//! number.

use vstd::prelude::*;
use crate::grammar::model::number_of;
use crate::grammar::to_number;
use crate::parser::error::ParseError;
use crate::parser::generators::{
    alphanum, digit, enclosed, identifier, identifier_outcome, many_of_class, or_class_follows,
    run_follows, run_of, symbol, symbol_outcome, text_from, whitespace,
};
use crate::parser::model::{
    between_follows, chain_follows, fn_follows, left_follows, many_follows, map_follows, mapped,
    or_else, or_follows, repeat, right_follows, skip_then, then, then_skip,
};
use crate::parser::text::{
    alphanumeric_chars, digit_chars, range_holds, skip_all, take_all, whitespace_chars,
};
use crate::parser::{Outcome, Parser, deep, follows, listed, outcome_of};

verus! {

/// A statement of a function.
#[derive(Clone, Debug, PartialEq, Eq)]
pub enum Statement {
    /// A call of the named function on a text.
    FnCall(String, String),
    /// The return of a number.
    Return(u32),
}

/// An item of a program.
#[derive(Clone, Debug, PartialEq, Eq)]
pub enum Item {
    /// A function: its name and its statements.
    FnDef(String, Vec<Statement>),
}

/// A program: its items, in order.
#[derive(Clone, Debug, PartialEq, Eq)]
pub struct Program(pub Vec<Item>);

/// What a [`Statement`] stands for.
pub enum SpecStatement {
    FnCall(Seq<char>, Seq<char>),
    Return(u32),
}

/// What an [`Item`] stands for.
pub enum SpecItem {
    FnDef(Seq<char>, Seq<SpecStatement>),
}

/// What a [`Program`] stands for.
pub struct SpecProgram(pub Seq<SpecItem>);

impl DeepView for Statement {
    type V = SpecStatement;

    open spec fn deep_view(&self) -> SpecStatement {
        match self {
            Statement::FnCall(name, text) => SpecStatement::FnCall(name@, text@),
            Statement::Return(value) => SpecStatement::Return(*value),
        }
    }
}

impl DeepView for Item {
    type V = SpecItem;

    open spec fn deep_view(&self) -> SpecItem {
        match self {
            Item::FnDef(name, body) => SpecItem::FnDef(name@, body.deep_view()),
        }
    }
}

impl DeepView for Program {
    type V = SpecProgram;

    open spec fn deep_view(&self) -> SpecProgram {
        SpecProgram(self.0.deep_view())
    }
}

/// The characters of the text of a call: alphanumeric or whitespace.
pub open spec fn text_chars() -> Seq<char> {
    alphanumeric_chars() + whitespace_chars()
}

/// A function name and, between parentheses and double quotes, the text
/// that it is called on.
pub open spec fn fn_call_model(input: Seq<char>) -> Outcome<SpecStatement> {
    mapped(
        then(
            identifier_outcome(input),
            |mid: Seq<char>|
                enclosed(
                    "("@,
                    |given: Seq<char>|
                        enclosed(
                            "\""@,
                            |from: Seq<char>| run_of(text_chars(), from),
                            "\""@,
                            given,
                        ),
                    ")"@,
                    mid,
                ),
        ),
        |call: (Seq<char>, Seq<char>)| SpecStatement::FnCall(call.0, call.1),
    )
}

/// The number of 32 bits that `digits` write, if they write one.
pub open spec fn small_number_of(digits: Seq<char>) -> Option<u32> {
    match number_of(digits) {
        Some(value) => if value <= u32::MAX {
            Some(value as u32)
        } else {
            None
        },
        None => None,
    }
}

/// A run of decimal digits that write a number of 32 bits; `Unit` where
/// there is no digit or the number does not fit.
pub open spec fn amount_model(input: Seq<char>) -> Outcome<u32> {
    match small_number_of(take_all(digit_chars(), input)) {
        Some(value) => Ok((value, skip_all(digit_chars(), input))),
        None => Err(ParseError::Unit),
    }
}

/// The keyword `return` and the number that is returned.
pub open spec fn return_stat_model(input: Seq<char>) -> Outcome<SpecStatement> {
    mapped(
        skip_then(symbol_outcome("return"@, input), |given: Seq<char>| amount_model(given)),
        |value: u32| SpecStatement::Return(value),
    )
}

/// A call or a return, and the semicolon that ends it.
pub open spec fn statement_model(input: Seq<char>) -> Outcome<SpecStatement> {
    then_skip(
        or_else(fn_call_model(input), return_stat_model(input)),
        |given: Seq<char>| symbol_outcome(";"@, given),
    )
}

/// The head of a function: the keyword `fn`, the name, empty parentheses,
/// an arrow and the name of the type that is returned. The name is kept.
pub open spec fn head_model(input: Seq<char>) -> Outcome<Seq<char>> {
    then_skip(
        then_skip(
            skip_then(symbol_outcome("fn"@, input), |given: Seq<char>| identifier_outcome(given)),
            |given: Seq<char>| symbol_outcome("()"@, given),
        ),
        |given: Seq<char>|
            then(symbol_outcome("->"@, given), |after: Seq<char>| identifier_outcome(after)),
    )
}

/// A function: its head and, between braces, its statements.
pub open spec fn fn_def_model(input: Seq<char>) -> Outcome<SpecItem> {
    mapped(
        then(
            head_model(input),
            |given: Seq<char>|
                enclosed(
                    "{"@,
                    |from: Seq<char>| repeat(|one: Seq<char>| statement_model(one), from),
                    "}"@,
                    given,
                ),
        ),
        |found: (Seq<char>, Seq<SpecStatement>)| SpecItem::FnDef(found.0, found.1),
    )
}

/// A program: every function of the input, in order.
pub open spec fn program_model(input: Seq<char>) -> Outcome<SpecProgram> {
    mapped(
        repeat(|given: Seq<char>| fn_def_model(given), input),
        |items: Seq<SpecItem>| SpecProgram(items),
    )
}

/// Parses the call of a function on a text.
pub fn fn_call() -> (p: Parser<Statement>)
    ensures
        follows(p, |input: Seq<char>| fn_call_model(input)),
{
    let name = identifier();
    let letters = alphanum();
    let blanks = whitespace();
    let one = letters.or(blanks);
    let text = one.many();
    let quote = symbol("\"");
    let unquote = symbol("\"");
    let quoted = text.between(quote, unquote);
    let open = symbol("(");
    let close = symbol(")");
    let argument = quoted.between(open, close);
    let call = name.and(argument);
    let make = |call: (String, Vec<char>)| -> (made: Statement)
        ensures
            made.deep_view() == SpecStatement::FnCall(call.0@, call.1@),
        {
            let (name, chars) = call;
            Statement::FnCall(name, text_from(&chars))
        };
    let p = call.map(make);
    proof {
        range_holds('a', 'z');
        or_class_follows(one, letters, blanks, alphanumeric_chars(), whitespace_chars());
        run_follows(text, one, text_chars());
        between_follows(
            quoted,
            quote,
            text,
            unquote,
            |given: Seq<char>| symbol_outcome("\""@, given),
            |from: Seq<char>| run_of(text_chars(), from),
            |given: Seq<char>| symbol_outcome("\""@, given),
        );
        between_follows(
            argument,
            open,
            quoted,
            close,
            |given: Seq<char>| symbol_outcome("("@, given),
            |given: Seq<char>|
                enclosed("\""@, |from: Seq<char>| run_of(text_chars(), from), "\""@, given),
            |given: Seq<char>| symbol_outcome(")"@, given),
        );
        chain_follows(
            call,
            name,
            argument,
            |input: Seq<char>| identifier_outcome(input),
            |mid: Seq<char>|
                enclosed(
                    "("@,
                    |given: Seq<char>|
                        enclosed(
                            "\""@,
                            |from: Seq<char>| run_of(text_chars(), from),
                            "\""@,
                            given,
                        ),
                    ")"@,
                    mid,
                ),
        );
        assert forall|value: (String, Vec<char>), out: Statement| #[trigger]
            call_ensures(make, (value,), out) implies out.deep_view() == SpecStatement::FnCall(
            value.deep_view().0,
            value.deep_view().1,
        ) by {
            assert(value.1.deep_view() =~= value.1@);
        }
        map_follows(
            p,
            call,
            make,
            |input: Seq<char>|
                then(
                    identifier_outcome(input),
                    |mid: Seq<char>|
                        enclosed(
                            "("@,
                            |given: Seq<char>|
                                enclosed(
                                    "\""@,
                                    |from: Seq<char>| run_of(text_chars(), from),
                                    "\""@,
                                    given,
                                ),
                            ")"@,
                            mid,
                        ),
                ),
            |call: (Seq<char>, Seq<char>)| SpecStatement::FnCall(call.0, call.1),
        );
    }
    p
}

/// The number of 32 bits that `digits` write, if they write one.
pub fn to_small_number(digits: &Vec<char>) -> (value: Option<u32>)
    ensures
        value == small_number_of(digits@),
{
    match to_number(digits) {
        Some(value) => {
            if value <= 0xffff_ffff {
                Some(value as u32)
            } else {
                None
            }
        },
        None => None,
    }
}

/// A run of decimal digits that write a number of 32 bits.
fn amount() -> (p: Parser<u32>)
    ensures
        follows(p, |input: Seq<char>| amount_model(input)),
{
    let convert = move |input: String| -> (r: Result<(u32, String), ParseError>)
        ensures
            deep(outcome_of(r)) == amount_model(input@),
        {
            let one = digit();
            let run = one.many();
            let found = run.parse(input.as_str());
            proof {
                range_holds('0', '9');
                many_of_class(one, digit_chars(), input@, listed(outcome_of(found)));
            }
            match found {
                Ok((digits, rest)) => match to_small_number(&digits) {
                    Some(value) => Ok((value, rest)),
                    None => Err(ParseError::Unit),
                },
                Err(_) => Err(ParseError::Unit),
            }
        };
    let p = Parser::new(convert);
    proof {
        fn_follows(p, convert, |input: Seq<char>| amount_model(input));
    }
    p
}

/// Parses the return of a number. It fails with `Unit` where no digit
/// follows the keyword or the number does not fit 32 bits.
pub fn return_stat() -> (p: Parser<Statement>)
    ensures
        follows(p, |input: Seq<char>| return_stat_model(input)),
{
    let keyword = symbol("return");
    let value = amount();
    let returned = keyword.right(value);
    let make = |value: u32| -> (made: Statement)
        ensures
            made == Statement::Return(value),
        { Statement::Return(value) };
    let p = returned.map(make);
    proof {
        right_follows(
            returned,
            keyword,
            value,
            |given: Seq<char>| symbol_outcome("return"@, given),
            |given: Seq<char>| amount_model(given),
        );
        map_follows(
            p,
            returned,
            make,
            |input: Seq<char>|
                skip_then(
                    symbol_outcome("return"@, input),
                    |given: Seq<char>| amount_model(given),
                ),
            |value: u32| SpecStatement::Return(value),
        );
    }
    p
}

/// Parses a statement and the semicolon that ends it.
pub fn statement() -> (p: Parser<Statement>)
    ensures
        follows(p, |input: Seq<char>| statement_model(input)),
{
    let call = fn_call();
    let returned = return_stat();
    let either = call.or(returned);
    let end = symbol(";");
    let p = either.left(end);
    proof {
        or_follows(
            either,
            call,
            returned,
            |input: Seq<char>| fn_call_model(input),
            |input: Seq<char>| return_stat_model(input),
        );
        left_follows(
            p,
            either,
            end,
            |input: Seq<char>| or_else(fn_call_model(input), return_stat_model(input)),
            |given: Seq<char>| symbol_outcome(";"@, given),
        );
    }
    p
}

/// The head of a function; its name is kept.
fn head() -> (p: Parser<String>)
    ensures
        follows(p, |input: Seq<char>| head_model(input)),
{
    let keyword = symbol("fn");
    let name = identifier();
    let named = keyword.right(name);
    let parentheses = symbol("()");
    let called = named.left(parentheses);
    let arrow = symbol("->");
    let of = identifier();
    let result = arrow.and(of);
    let p = called.left(result);
    proof {
        right_follows(
            named,
            keyword,
            name,
            |given: Seq<char>| symbol_outcome("fn"@, given),
            |given: Seq<char>| identifier_outcome(given),
        );
        left_follows(
            called,
            named,
            parentheses,
            |input: Seq<char>|
                skip_then(
                    symbol_outcome("fn"@, input),
                    |given: Seq<char>| identifier_outcome(given),
                ),
            |given: Seq<char>| symbol_outcome("()"@, given),
        );
        chain_follows(
            result,
            arrow,
            of,
            |given: Seq<char>| symbol_outcome("->"@, given),
            |after: Seq<char>| identifier_outcome(after),
        );
        left_follows(
            p,
            called,
            result,
            |input: Seq<char>|
                then_skip(
                    skip_then(
                        symbol_outcome("fn"@, input),
                        |given: Seq<char>| identifier_outcome(given),
                    ),
                    |given: Seq<char>| symbol_outcome("()"@, given),
                ),
            |given: Seq<char>|
                then(symbol_outcome("->"@, given), |after: Seq<char>| identifier_outcome(after)),
        );
    }
    p
}

/// Parses a function: its head and its body.
pub fn fn_def() -> (p: Parser<Item>)
    ensures
        follows(p, |input: Seq<char>| fn_def_model(input)),
{
    let declared = head();
    let one = statement();
    let statements = one.many();
    let open = symbol("{");
    let close = symbol("}");
    let body = statements.between(open, close);
    let whole = declared.and(body);
    let make = |found: (String, Vec<Statement>)| -> (made: Item)
        ensures
            made == Item::FnDef(found.0, found.1),
        {
            let (name, body) = found;
            Item::FnDef(name, body)
        };
    let p = whole.map(make);
    proof {
        many_follows(statements, one, |given: Seq<char>| statement_model(given));
        between_follows(
            body,
            open,
            statements,
            close,
            |given: Seq<char>| symbol_outcome("{"@, given),
            |from: Seq<char>| repeat(|given: Seq<char>| statement_model(given), from),
            |given: Seq<char>| symbol_outcome("}"@, given),
        );
        chain_follows(
            whole,
            declared,
            body,
            |input: Seq<char>| head_model(input),
            |given: Seq<char>|
                enclosed(
                    "{"@,
                    |from: Seq<char>| repeat(|one: Seq<char>| statement_model(one), from),
                    "}"@,
                    given,
                ),
        );
        map_follows(
            p,
            whole,
            make,
            |input: Seq<char>|
                then(
                    head_model(input),
                    |given: Seq<char>|
                        enclosed(
                            "{"@,
                            |from: Seq<char>| repeat(|one: Seq<char>| statement_model(one), from),
                            "}"@,
                            given,
                        ),
                ),
            |found: (Seq<char>, Seq<SpecStatement>)| SpecItem::FnDef(found.0, found.1),
        );
    }
    p
}

/// Parses an item of a program: a function.
pub fn item() -> (p: Parser<Item>)
    ensures
        follows(p, |input: Seq<char>| fn_def_model(input)),
{
    fn_def()
}

/// Parses a program: every function at the start of the input. What
/// follows the last of them is left over.
pub fn program() -> (p: Parser<Program>)
    ensures
        follows(p, |input: Seq<char>| program_model(input)),
{
    let one = item();
    let items = one.many();
    let make = |items: Vec<Item>| -> (made: Program)
        ensures
            made == Program(items),
        { Program(items) };
    let p = items.map(make);
    proof {
        many_follows(items, one, |given: Seq<char>| fn_def_model(given));
        map_follows(
            p,
            items,
            make,
            |input: Seq<char>| repeat(|given: Seq<char>| fn_def_model(given), input),
            |items: Seq<SpecItem>| SpecProgram(items),
        );
    }
    p
}

} // verus!
