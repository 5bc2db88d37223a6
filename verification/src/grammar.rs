//! The notation, stated over sequences of characters.
//!
//! Each function here takes the text that is still unread and says what one
//! read makes of it: the value and the text left behind it, or the error.

use vstd::prelude::*;
use crate::chars::{digit_value, is_delimiter, is_digit, is_symbol_char, is_whitespace};
use crate::error::ReadError;
use crate::types::atom::AtomView;
use crate::types::exp::ExpView;

verus! {

/// `s` without its leading whitespace.
pub open spec fn skip_whitespace(s: Seq<char>) -> Seq<char>
    decreases s.len(),
{
    if s.len() > 0 && is_whitespace(s[0]) {
        skip_whitespace(s.drop_first())
    } else {
        s
    }
}

/// 1 where `s` starts with `+` or `-`, else 0.
pub open spec fn sign_len(s: Seq<char>) -> int {
    if s.len() > 0 && (s[0] == '+' || s[0] == '-') {
        1
    } else {
        0
    }
}

/// The end of the longest run of digits of `s` that starts at `i`.
pub open spec fn digits_end(s: Seq<char>, i: int) -> int
    decreases s.len() - i,
{
    if 0 <= i < s.len() && is_digit(s[i]) {
        digits_end(s, i + 1)
    } else {
        i
    }
}

/// The end of the longest run of symbol characters of `s` that starts at `i`.
pub open spec fn symbol_end(s: Seq<char>, i: int) -> int
    decreases s.len() - i,
{
    if 0 <= i < s.len() && is_symbol_char(s[i]) {
        symbol_end(s, i + 1)
    } else {
        i
    }
}

/// A number may end at `i`: the text ends there, or a delimiter stands there.
pub open spec fn ends_number(s: Seq<char>, i: int) -> bool {
    i >= s.len() || is_delimiter(s[i])
}

/// The length of the integer literal that `s` starts with: an optional sign,
/// one or more digits, and then a delimiter or the end of the text.
pub open spec fn int_literal_len(s: Seq<char>) -> Option<int> {
    let a = sign_len(s);
    let b = digits_end(s, a);
    if a < b && ends_number(s, b) {
        Some(b)
    } else {
        None
    }
}

/// The length of the float literal that `s` starts with: an optional sign,
/// digits or none, a point, one or more digits, and then a delimiter or the
/// end of the text.
pub open spec fn float_literal_len(s: Seq<char>) -> Option<int> {
    let a = sign_len(s);
    let b = digits_end(s, a);
    let c = digits_end(s, b + 1);
    if b < s.len() && s[b] == '.' && b + 1 < c && ends_number(s, c) {
        Some(c)
    } else {
        None
    }
}

/// The number that a run of decimal digits stands for.
pub open spec fn decimal_value(digits: Seq<char>) -> nat
    decreases digits.len(),
{
    if digits.len() == 0 {
        0
    } else {
        decimal_value(digits.drop_last()) * 10 + digit_value(digits.last())
    }
}

/// The number that an integer literal stands for.
pub open spec fn int_literal_value(lit: Seq<char>) -> int {
    let a = sign_len(lit);
    let magnitude = decimal_value(lit.subrange(a, lit.len() as int));
    if a == 1 && lit[0] == '-' {
        -magnitude
    } else {
        magnitude as int
    }
}

/// The character that an escape letter stands for.
pub open spec fn unescape(c: char) -> Option<char> {
    if c == 'n' {
        Some('\n')
    } else if c == 't' {
        Some('\t')
    } else if c == 'r' {
        Some('\r')
    } else if c == '"' {
        Some('"')
    } else if c == '\\' {
        Some('\\')
    } else {
        None
    }
}

/// Reads the rest of a string literal, behind its opening quote: `acc` is
/// the text decoded so far.
pub open spec fn read_string_body(s: Seq<char>, acc: Seq<char>) -> Result<
    (Seq<char>, Seq<char>),
    ReadError,
>
    decreases s.len(),
{
    if s.len() == 0 {
        Err(ReadError::UnterminatedString)
    } else if s[0] == '"' {
        Ok((acc, s.drop_first()))
    } else if s[0] == '\\' {
        if s.len() == 1 {
            Err(ReadError::UnexpectedEof)
        } else {
            match unescape(s[1]) {
                Some(c) => read_string_body(s.subrange(2, s.len() as int), acc.push(c)),
                None => Err(ReadError::InvalidEscapeSequence),
            }
        }
    } else {
        read_string_body(s.drop_first(), acc.push(s[0]))
    }
}

/// Reads a string literal from `s`, which starts with its opening quote.
pub open spec fn read_string(s: Seq<char>) -> Result<(ExpView, Seq<char>), ReadError> {
    match read_string_body(s.drop_first(), Seq::empty()) {
        Ok((text, rest)) => Ok((ExpView::Atom(AtomView::String(text)), rest)),
        Err(e) => Err(e),
    }
}

/// Reads a number or a symbol from the front of `s`: an integer literal
/// first, then a float literal, then a symbol.
pub open spec fn read_token(s: Seq<char>) -> Result<(ExpView, Seq<char>), ReadError> {
    if let Some(n) = int_literal_len(s) {
        let value = int_literal_value(s.subrange(0, n));
        if i64::MIN <= value <= i64::MAX {
            Ok((ExpView::Atom(AtomView::Int(value)), s.subrange(n, s.len() as int)))
        } else {
            Err(ReadError::InvalidInput)
        }
    } else if let Some(n) = float_literal_len(s) {
        Ok((ExpView::Atom(AtomView::Float(s.subrange(0, n))), s.subrange(n, s.len() as int)))
    } else {
        let n = symbol_end(s, 0);
        if n > 0 {
            Ok((ExpView::Atom(AtomView::Symbol(s.subrange(0, n))), s.subrange(n, s.len() as int)))
        } else {
            Err(ReadError::InvalidInput)
        }
    }
}

/// Reads one atom: leading whitespace is skipped, a quote opens a string
/// literal, anything else is a number or a symbol.
pub open spec fn read_atom(s: Seq<char>) -> Result<(ExpView, Seq<char>), ReadError> {
    let t = skip_whitespace(s);
    if t.len() == 0 {
        Err(ReadError::UnexpectedEof)
    } else if t[0] == '"' {
        read_string(t)
    } else {
        read_token(t)
    }
}

/// Reads one expression from the front of `s`.
///
/// Leading whitespace is skipped; the next character then decides what is
/// read.
pub open spec fn read_exp(s: Seq<char>) -> Result<(ExpView, Seq<char>), ReadError>
    decreases s.len(), 4int,
{
    if s.len() == 0 {
        Err(ReadError::UnexpectedEof)
    } else if is_whitespace(s[0]) {
        read_exp(s.drop_first())
    } else if s[0] == '(' {
        read_list(s)
    } else if s[0] == '[' {
        read_vector(s)
    } else if s[0] == '{' {
        read_map(s)
    } else if s[0] == '#' {
        if s.len() == 1 {
            Err(ReadError::UnexpectedEof)
        } else if s[1] == '{' {
            read_set(s.drop_first())
        } else {
            Err(ReadError::UnknownReaderMacro)
        }
    } else if s[0] == ')' || s[0] == ']' || s[0] == '}' {
        Err(ReadError::UnexpectedCloseDelimiter)
    } else {
        read_atom(s)
    }
}

/// Reads a list from `s`, which starts with `(`.
pub open spec fn read_list(s: Seq<char>) -> Result<(ExpView, Seq<char>), ReadError>
    decreases s.len(), 3int,
{
    if s.len() == 0 {
        Err(ReadError::UnexpectedEof)
    } else {
        match read_items(s.drop_first(), ')') {
            Ok((items, rest)) => Ok((ExpView::List(items), rest)),
            Err(e) => Err(e),
        }
    }
}

/// Reads a vector from `s`, which starts with `[`.
pub open spec fn read_vector(s: Seq<char>) -> Result<(ExpView, Seq<char>), ReadError>
    decreases s.len(), 3int,
{
    if s.len() == 0 {
        Err(ReadError::UnexpectedEof)
    } else {
        match read_items(s.drop_first(), ']') {
            Ok((items, rest)) => Ok((ExpView::Vector(items), rest)),
            Err(e) => Err(e),
        }
    }
}

/// Reads a map from `s`, which starts with `{`.
pub open spec fn read_map(s: Seq<char>) -> Result<(ExpView, Seq<char>), ReadError>
    decreases s.len(), 3int,
{
    if s.len() == 0 {
        Err(ReadError::UnexpectedEof)
    } else {
        match read_pairs(s.drop_first()) {
            Ok((pairs, rest)) => Ok((ExpView::MapForm(pairs), rest)),
            Err(e) => Err(e),
        }
    }
}

/// Reads a set from `s`, which starts with the `{` behind the `#`.
pub open spec fn read_set(s: Seq<char>) -> Result<(ExpView, Seq<char>), ReadError>
    decreases s.len(), 3int,
{
    if s.len() == 0 {
        Err(ReadError::UnexpectedEof)
    } else {
        match read_items(s.drop_first(), '}') {
            Ok((items, rest)) => Ok((ExpView::SetForm(items), rest)),
            Err(e) => Err(e),
        }
    }
}

/// Reads the items of a list, a vector or a set, behind the opening
/// delimiter, up to and including `close`.
///
/// `close` directly at the front gives the empty collection.
pub open spec fn read_items(s: Seq<char>, close: char) -> Result<
    (Seq<ExpView>, Seq<char>),
    ReadError,
>
    decreases s.len(), 6int,
{
    if s.len() == 0 {
        Err(ReadError::UnexpectedEof)
    } else if s[0] == close {
        Ok((Seq::empty(), s.drop_first()))
    } else {
        read_more_items(s, close, Seq::empty())
    }
}

/// Reads one item and what follows it: `close` behind optional whitespace
/// ends the collection, anything else is a further item. `acc` holds the
/// items read so far.
///
/// The comparison of lengths only shows that the definition terminates:
/// a read always leaves less than it found.
pub open spec fn read_more_items(s: Seq<char>, close: char, acc: Seq<ExpView>) -> Result<
    (Seq<ExpView>, Seq<char>),
    ReadError,
>
    decreases s.len(), 5int,
{
    match read_exp(s) {
        Err(e) => Err(e),
        Ok((item, after)) => {
            let t = skip_whitespace(after);
            if t.len() == 0 {
                Err(ReadError::UnexpectedEof)
            } else if t[0] == close {
                Ok((acc.push(item), t.drop_first()))
            } else if t.len() < s.len() {
                read_more_items(t, close, acc.push(item))
            } else {
                Err(ReadError::InvalidInput)
            }
        },
    }
}

/// Reads the pairs of a map, behind its `{`, up to and including `}`.
pub open spec fn read_pairs(s: Seq<char>) -> Result<
    (Seq<(ExpView, ExpView)>, Seq<char>),
    ReadError,
>
    decreases s.len(), 6int,
{
    if s.len() == 0 {
        Err(ReadError::UnexpectedEof)
    } else if s[0] == '}' {
        Ok((Seq::empty(), s.drop_first()))
    } else {
        read_more_pairs(s, Seq::empty())
    }
}

/// Reads a key, a value and what follows them: `}` behind optional
/// whitespace ends the map, anything else is a further pair. `acc` holds
/// the pairs read so far.
///
/// The comparisons of lengths only show that the definition terminates.
pub open spec fn read_more_pairs(s: Seq<char>, acc: Seq<(ExpView, ExpView)>) -> Result<
    (Seq<(ExpView, ExpView)>, Seq<char>),
    ReadError,
>
    decreases s.len(), 5int,
{
    match read_exp(s) {
        Err(e) => Err(e),
        Ok((key, after_key)) => {
            if after_key.len() < s.len() {
                match read_exp(after_key) {
                    Err(e) => Err(e),
                    Ok((value, after)) => {
                        let t = skip_whitespace(after);
                        if t.len() == 0 {
                            Err(ReadError::UnexpectedEof)
                        } else if t[0] == '}' {
                            Ok((acc.push((key, value)), t.drop_first()))
                        } else if t.len() < s.len() {
                            read_more_pairs(t, acc.push((key, value)))
                        } else {
                            Err(ReadError::InvalidInput)
                        }
                    },
                }
            } else {
                Err(ReadError::InvalidInput)
            }
        },
    }
}

/// Skipping whitespace leaves a text that is no longer and that does not
/// start with whitespace.
pub proof fn lemma_skip_whitespace(s: Seq<char>)
    ensures
        skip_whitespace(s).len() <= s.len(),
        skip_whitespace(s).len() > 0 ==> !is_whitespace(skip_whitespace(s)[0]),
        skip_whitespace(skip_whitespace(s)) == skip_whitespace(s),
    decreases s.len(),
{
    if s.len() > 0 && is_whitespace(s[0]) {
        lemma_skip_whitespace(s.drop_first());
    }
}

/// Whitespace before an expression does not change what is read.
pub proof fn lemma_read_exp_skips_whitespace(s: Seq<char>)
    ensures
        read_exp(s) == read_exp(skip_whitespace(s)),
    decreases s.len(),
{
    if s.len() > 0 && is_whitespace(s[0]) {
        lemma_read_exp_skips_whitespace(s.drop_first());
    }
}

/// From `i` to `digits_end(s, i)` stand digits only, and no digit stands
/// at that end.
pub proof fn lemma_digits_end(s: Seq<char>, i: int)
    requires
        0 <= i <= s.len(),
    ensures
        i <= digits_end(s, i) <= s.len(),
        forall|k: int| i <= k < digits_end(s, i) ==> is_digit(#[trigger] s[k]),
        digits_end(s, i) < s.len() ==> !is_digit(s[digits_end(s, i)]),
    decreases s.len() - i,
{
    if i < s.len() && is_digit(s[i]) {
        lemma_digits_end(s, i + 1);
    }
}

/// From `i` to `symbol_end(s, i)` stand symbol characters only, and none
/// stands at that end.
pub proof fn lemma_symbol_end(s: Seq<char>, i: int)
    requires
        0 <= i <= s.len(),
    ensures
        i <= symbol_end(s, i) <= s.len(),
        forall|k: int| i <= k < symbol_end(s, i) ==> is_symbol_char(#[trigger] s[k]),
        symbol_end(s, i) < s.len() ==> !is_symbol_char(s[symbol_end(s, i)]),
    decreases s.len() - i,
{
    if i < s.len() && is_symbol_char(s[i]) {
        lemma_symbol_end(s, i + 1);
    }
}

} // verus!
