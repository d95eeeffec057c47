//! Sequences of characters: the classes of characters that the lexical
//! parsers accept, and what it is to skip a run of them.

use vstd::prelude::*;

verus! {

/// `String::push` appends the given character to the end of the string.
pub assume_specification[ String::push ](text: &mut String, ch: char)
    ensures
        final(text)@ == old(text)@.push(ch),
;

/// The first character of `input`, if it has one.
pub open spec fn head(input: Seq<char>) -> Option<char> {
    if input.len() > 0 {
        Some(input[0])
    } else {
        None
    }
}

/// The greatest character of a non-empty sequence, by code point.
pub open spec fn greatest(chars: Seq<char>) -> char
    decreases chars.len(),
{
    if chars.len() <= 1 {
        chars[0]
    } else {
        let later = greatest(chars.drop_first());
        if chars[0] <= later {
            later
        } else {
            chars[0]
        }
    }
}

/// The length of the longest prefix of `input` made of characters of
/// `class` only.
pub open spec fn span(class: Seq<char>, input: Seq<char>) -> nat
    decreases input.len(),
{
    if input.len() > 0 && class.contains(input[0]) {
        1 + span(class, input.drop_first())
    } else {
        0
    }
}

/// `input` without its longest prefix of characters of `class`.
pub open spec fn skip_all(class: Seq<char>, input: Seq<char>) -> Seq<char> {
    input.skip(span(class, input) as int)
}

/// The longest prefix of `input` made of characters of `class` only.
pub open spec fn take_all(class: Seq<char>, input: Seq<char>) -> Seq<char> {
    input.take(span(class, input) as int)
}

/// The characters from `first` to `last`, both included, in order.
pub open spec fn chars_between(first: char, last: char) -> Seq<char> {
    Seq::new((last as int - first as int + 1) as nat, |k: int| (first as int + k) as char)
}

/// The whitespace characters: space, line feed, tab and carriage return.
pub open spec fn whitespace_chars() -> Seq<char> {
    seq![' ', '\n', '\t', '\r']
}

/// The lowercase letters `a` to `z`.
pub open spec fn lowercase_chars() -> Seq<char> {
    chars_between('a', 'z')
}

/// The uppercase letters `A` to `Z`.
pub open spec fn uppercase_chars() -> Seq<char> {
    chars_between('A', 'Z')
}

/// The characters of an identifier that are no letters: the underscore.
pub open spec fn other_chars() -> Seq<char> {
    seq!['_']
}

/// The characters that may start an identifier.
pub open spec fn letter_chars() -> Seq<char> {
    lowercase_chars() + uppercase_chars() + other_chars()
}

/// The decimal digits `0` to `9`.
pub open spec fn digit_chars() -> Seq<char> {
    chars_between('0', '9')
}

/// The characters that may follow the first one of an identifier.
pub open spec fn alphanumeric_chars() -> Seq<char> {
    letter_chars() + digit_chars()
}

/// Whether `c` is a whitespace character.
pub open spec fn is_whitespace(c: char) -> bool {
    c == ' ' || c == '\n' || c == '\t' || c == '\r'
}

/// Whether `c` may start an identifier.
pub open spec fn is_letter(c: char) -> bool {
    ('a' <= c && c <= 'z') || ('A' <= c && c <= 'Z') || c == '_'
}

/// Whether `c` is a decimal digit.
pub open spec fn is_digit(c: char) -> bool {
    '0' <= c && c <= '9'
}

/// Whether `c` may follow the first character of an identifier.
pub open spec fn is_alphanumeric(c: char) -> bool {
    is_letter(c) || is_digit(c)
}

/// A range of characters below the surrogates holds exactly the characters
/// between its ends, and the last of them is its greatest.
pub proof fn range_holds(first: char, last: char)
    requires
        first <= last,
        (last as int) < 0xD800,
    ensures
        chars_between(first, last).len() == last as int - first as int + 1,
        forall|c: char| #[trigger]
            chars_between(first, last).contains(c) <==> first <= c && c <= last,
        greatest(chars_between(first, last)) == last,
{
    let range = chars_between(first, last);
    assert forall|c: char| range.contains(c) <==> first <= c && c <= last by {
        if first <= c && c <= last {
            assert(range[c as int - first as int] == c);
        }
    }
    maximum_is_greatest(range, last);
}

/// A character belongs to two sequences put together where it belongs to
/// one of them, and their greatest is the greater of the two greatest.
pub proof fn joined_holds(a: Seq<char>, b: Seq<char>)
    requires
        a.len() > 0,
        b.len() > 0,
    ensures
        forall|c: char| #[trigger] (a + b).contains(c) <==> a.contains(c) || b.contains(c),
        greatest(a + b) == if greatest(a) <= greatest(b) {
            greatest(b)
        } else {
            greatest(a)
        },
{
    let both = a + b;
    assert forall|c: char| both.contains(c) <==> a.contains(c) || b.contains(c) by {
        if both.contains(c) {
            let k = choose|k: int| 0 <= k < both.len() && both[k] == c;
            if k < a.len() {
                assert(a[k] == c);
            } else {
                assert(b[k - a.len()] == c);
            }
        }
        if a.contains(c) {
            let k = choose|k: int| 0 <= k < a.len() && a[k] == c;
            assert(both[k] == c);
        }
        if b.contains(c) {
            let k = choose|k: int| 0 <= k < b.len() && b[k] == c;
            assert(both[k + a.len()] == c);
        }
    }
    greatest_is_maximum(a);
    greatest_is_maximum(b);
    let top = if greatest(a) <= greatest(b) {
        greatest(b)
    } else {
        greatest(a)
    };
    assert forall|k: int| 0 <= k < both.len() implies both[k] <= top by {
        if k < a.len() {
            assert(both[k] == a[k]);
        } else {
            assert(both[k] == b[k - a.len()]);
        }
    }
    maximum_is_greatest(both, top);
}

/// What each class of characters holds, and the greatest character of each.
pub proof fn classes_hold()
    ensures
        forall|c: char| whitespace_chars().contains(c) <==> is_whitespace(c),
        forall|c: char| lowercase_chars().contains(c) <==> 'a' <= c && c <= 'z',
        forall|c: char| uppercase_chars().contains(c) <==> 'A' <= c && c <= 'Z',
        forall|c: char| other_chars().contains(c) <==> c == '_',
        forall|c: char| letter_chars().contains(c) <==> is_letter(c),
        forall|c: char| digit_chars().contains(c) <==> is_digit(c),
        forall|c: char| alphanumeric_chars().contains(c) <==> is_alphanumeric(c),
        greatest(whitespace_chars()) == ' ',
        greatest(lowercase_chars()) == 'z',
        greatest(uppercase_chars()) == 'Z',
        greatest(other_chars()) == '_',
        greatest(letter_chars()) == 'z',
        greatest(digit_chars()) == '9',
        greatest(alphanumeric_chars()) == 'z',
{
    let blank = whitespace_chars();
    assert forall|c: char| blank.contains(c) <==> is_whitespace(c) by {
        assert(blank[0] == ' ' && blank[1] == '\n' && blank[2] == '\t' && blank[3] == '\r');
    }
    assert(blank.contains(' ')) by {
        assert(blank[0] == ' ');
    }
    maximum_is_greatest(blank, ' ');
    let under = other_chars();
    assert forall|c: char| under.contains(c) <==> c == '_' by {
        assert(under[0] == '_');
    }
    range_holds('a', 'z');
    range_holds('A', 'Z');
    range_holds('0', '9');
    joined_holds(lowercase_chars(), uppercase_chars());
    joined_holds(lowercase_chars() + uppercase_chars(), other_chars());
    joined_holds(letter_chars(), digit_chars());
    assert forall|c: char| letter_chars().contains(c) <==> is_letter(c) by {
        assert((lowercase_chars() + uppercase_chars()).contains(c) <==> lowercase_chars().contains(c)
            || uppercase_chars().contains(c));
    }
    assert forall|c: char| alphanumeric_chars().contains(c) <==> is_alphanumeric(c) by {
        assert(letter_chars().contains(c) <==> is_letter(c));
        assert(digit_chars().contains(c) <==> is_digit(c));
    }
}

/// The greatest character of a non-empty sequence belongs to it and bounds
/// every character of it.
pub proof fn greatest_is_maximum(chars: Seq<char>)
    requires
        chars.len() > 0,
    ensures
        chars.contains(greatest(chars)),
        forall|k: int| 0 <= k < chars.len() ==> chars[k] <= greatest(chars),
    decreases chars.len(),
{
    if chars.len() > 1 {
        let later = chars.drop_first();
        greatest_is_maximum(later);
        let k = choose|k: int| 0 <= k < later.len() && later[k] == greatest(later);
        assert(chars[k + 1] == greatest(later));
        assert forall|k: int| 0 <= k < chars.len() implies chars[k] <= greatest(chars) by {
            if k > 0 {
                assert(chars[k] == later[k - 1]);
            }
        }
    }
}

/// A character that belongs to a sequence and bounds every character of it
/// is its greatest.
pub proof fn maximum_is_greatest(chars: Seq<char>, top: char)
    requires
        chars.contains(top),
        forall|k: int| 0 <= k < chars.len() ==> chars[k] <= top,
    ensures
        greatest(chars) == top,
{
    greatest_is_maximum(chars);
}

/// The span is the one length at which `input` has only characters of
/// `class` before it and none of `class` at it.
pub proof fn span_is_longest_prefix(class: Seq<char>, input: Seq<char>)
    ensures
        span(class, input) <= input.len(),
        forall|k: int| 0 <= k < span(class, input) ==> class.contains(#[trigger] input[k]),
        span(class, input) < input.len() ==> !class.contains(input[span(class, input) as int]),
    decreases input.len(),
{
    if input.len() > 0 && class.contains(input[0]) {
        let later = input.drop_first();
        span_is_longest_prefix(class, later);
        assert forall|k: int| 0 <= k < span(class, input) implies class.contains(
            #[trigger] input[k],
        ) by {
            if k > 0 {
                assert(input[k] == later[k - 1]);
            }
        }
        if span(class, input) < input.len() {
            assert(input[span(class, input) as int] == later[span(class, later) as int]);
        }
    }
}

/// A length with only characters of `class` before it and none of `class`
/// at it is the span.
pub proof fn longest_prefix_is_span(class: Seq<char>, input: Seq<char>, n: nat)
    requires
        n <= input.len(),
        forall|k: int| 0 <= k < n ==> class.contains(#[trigger] input[k]),
        n < input.len() ==> !class.contains(input[n as int]),
    ensures
        span(class, input) == n,
    decreases input.len(),
{
    if n > 0 {
        let later = input.drop_first();
        assert(class.contains(input[0]));
        assert forall|k: int| 0 <= k < n - 1 implies class.contains(#[trigger] later[k]) by {
            assert(later[k] == input[k + 1]);
        }
        longest_prefix_is_span(class, later, (n - 1) as nat);
    }
}

/// What is left after a skip starts with no character of the class, so a
/// second skip removes nothing.
pub proof fn skip_all_is_idempotent(class: Seq<char>, input: Seq<char>)
    ensures
        span(class, skip_all(class, input)) == 0,
        skip_all(class, skip_all(class, input)) == skip_all(class, input),
{
    span_is_longest_prefix(class, input);
    let rest = skip_all(class, input);
    if rest.len() > 0 {
        assert(rest[0] == input[span(class, input) as int]);
    }
    assert(rest.skip(0) =~= rest);
}

/// Splits the first character off `input`.
pub fn split_first(input: &str) -> (parts: Option<(char, String)>)
    ensures
        match parts {
            Some((first, rest)) => input@.len() > 0 && first == input@[0] && rest@
                == input@.drop_first(),
            None => input@.len() == 0,
        },
{
    let length = input.unicode_len();
    if length == 0 {
        None
    } else {
        let first = input.get_char(0);
        let rest = input.substring_char(1, length).to_owned();
        assert(rest@ =~= input@.drop_first());
        Some((first, rest))
    }
}

/// The characters with the codes from `first` to `last`, both included.
pub fn char_range(first: u8, last: u8) -> (chars: Vec<char>)
    requires
        first <= last,
    ensures
        chars@ == chars_between(first as char, last as char),
{
    let mut chars: Vec<char> = Vec::new();
    let mut code = first;
    while code < last
        invariant
            first <= code <= last,
            chars@.len() == code - first,
            forall|k: int| 0 <= k < chars@.len() ==> chars@[k] == ((first as int + k) as char),
        decreases last - code,
    {
        chars.push(code as char);
        code = code + 1;
    }
    chars.push(last as char);
    assert(chars@ =~= chars_between(first as char, last as char));
    chars
}

/// The text made of `first` followed by the characters of `rest`.
pub fn text_of(first: char, rest: &Vec<char>) -> (text: String)
    ensures
        text@ == seq![first] + rest@,
{
    let mut text = String::new();
    text.push(first);
    let mut at: usize = 0;
    while at < rest.len()
        invariant
            at <= rest.len(),
            text@ == seq![first] + rest@.take(at as int),
        decreases rest.len() - at,
    {
        text.push(rest[at]);
        assert(rest@.take(at as int).push(rest@[at as int]) =~= rest@.take(at as int + 1));
        at = at + 1;
    }
    assert(rest@.take(rest.len() as int) =~= rest@);
    text
}

} // verus!
