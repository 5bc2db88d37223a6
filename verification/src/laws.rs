//! What holds of reading and rendering together.

use vstd::prelude::*;
use crate::chars::{digit_char, digit_value, is_delimiter, is_digit, is_symbol_char, is_whitespace};
use crate::error::ReadError;
use crate::grammar::{
    decimal_value, digits_end, ends_number, int_literal_len, int_literal_value, lemma_digits_end,
    lemma_symbol_end, read_atom, read_exp, read_items, read_list, read_map, read_pairs, read_set,
    read_more_items, read_more_pairs, read_string_body, read_token, read_vector, sign_len,
    skip_whitespace, symbol_end,
};
use crate::render::{decimal_digits, int_text};
use crate::types::atom::AtomView;
use crate::types::exp::ExpView;

verus! {

/// A digit's character is a digit and stands for that digit.
pub proof fn lemma_digit_char(d: nat)
    requires
        d < 10,
    ensures
        is_digit(digit_char(d)),
        digit_value(digit_char(d)) == d,
{
}

/// The decimal digits of a number are digits, at least one, and stand for
/// that number.
pub proof fn lemma_decimal_digits(n: nat)
    ensures
        decimal_digits(n).len() >= 1,
        forall|k: int| 0 <= k < decimal_digits(n).len() ==> is_digit(#[trigger] decimal_digits(n)[k]),
        decimal_value(decimal_digits(n)) == n,
    decreases n,
{
    lemma_digit_char(n % 10);
    if n < 10 {
        let s = decimal_digits(n);
        assert(s.drop_last() =~= Seq::<char>::empty());
        assert(decimal_value(s.drop_last()) == 0);
    } else {
        lemma_decimal_digits(n / 10);
        let s = decimal_digits(n);
        assert(s.drop_last() =~= decimal_digits(n / 10));
    }
}

/// A run of digits that a non-digit or the end of the text follows ends
/// there.
pub proof fn lemma_digit_run(s: Seq<char>, i: int, j: int)
    requires
        0 <= i <= j <= s.len(),
        forall|k: int| i <= k < j ==> is_digit(#[trigger] s[k]),
        j == s.len() || !is_digit(s[j]),
    ensures
        digits_end(s, i) == j,
    decreases j - i,
{
    if i < j {
        lemma_digit_run(s, i + 1, j);
    }
}

/// The decimal text of a 64-bit integer, before the end of the text or a
/// delimiter, reads as that integer, and what follows the text is left.
pub proof fn lemma_read_int_text(n: i64, tail: Seq<char>)
    requires
        tail.len() == 0 || is_delimiter(tail[0]),
    ensures
        read_exp(int_text(n as int) + tail) == Ok::<(ExpView, Seq<char>), ReadError>(
            (ExpView::Atom(AtomView::Int(n as int)), tail),
        ),
{
    let magnitude: nat = if n < 0 {
        (-n) as nat
    } else {
        n as nat
    };
    let digits = decimal_digits(magnitude);
    let text = int_text(n as int);
    let s = text + tail;
    lemma_decimal_digits(magnitude);
    let a: int = if n < 0 {
        1
    } else {
        0
    };
    assert(text.len() == a + digits.len());
    assert(forall|k: int| a <= k < text.len() ==> text[k] == digits[k - a]);
    assert(is_digit(digits[0]));
    assert(s[0] == text[0]);
    assert(sign_len(s) == a);
    assert forall|k: int| a <= k < text.len() implies is_digit(#[trigger] s[k]) by {
        assert(s[k] == digits[k - a]);
    }
    if tail.len() > 0 {
        assert(s[text.len() as int] == tail[0]);
    }
    lemma_digit_run(s, a, text.len() as int);
    assert(ends_number(s, text.len() as int));
    assert(int_literal_len(s) == Some(text.len() as int));
    let lit = s.subrange(0, text.len() as int);
    assert(lit =~= text);
    assert(lit.subrange(a, lit.len() as int) =~= digits);
    assert(int_literal_value(lit) == n as int);
    assert(s.subrange(text.len() as int, s.len() as int) =~= tail);
    assert(read_token(s) == Ok::<(ExpView, Seq<char>), ReadError>(
        (ExpView::Atom(AtomView::Int(n as int)), tail),
    ));
    assert(!is_whitespace(s[0]));
    assert(skip_whitespace(s) == s);
    assert(read_atom(s) == read_token(s));
    assert(read_exp(s) == read_atom(s));
}

/// Reading the decimal text of any 64-bit integer gives that integer and
/// leaves nothing; with `)` behind the text, the same integer is read and
/// the `)` is left.
pub proof fn law_integer_text_reads_back(n: i64)
    ensures
        read_exp(int_text(n as int)) == Ok::<(ExpView, Seq<char>), ReadError>(
            (ExpView::Atom(AtomView::Int(n as int)), Seq::empty()),
        ),
        read_exp(int_text(n as int).push(')')) == Ok::<(ExpView, Seq<char>), ReadError>(
            (ExpView::Atom(AtomView::Int(n as int)), seq![')']),
        ),
{
    lemma_read_int_text(n, Seq::empty());
    assert(int_text(n as int) + Seq::<char>::empty() =~= int_text(n as int));
    lemma_read_int_text(n, seq![')']);
    assert(int_text(n as int) + seq![')'] =~= int_text(n as int).push(')'));
}

/// A run of symbol characters that no symbol character follows ends there.
pub proof fn lemma_symbol_run(s: Seq<char>, i: int, j: int)
    requires
        0 <= i <= j <= s.len(),
        forall|k: int| i <= k < j ==> is_symbol_char(#[trigger] s[k]),
        j == s.len() || !is_symbol_char(s[j]),
    ensures
        symbol_end(s, i) == j,
    decreases j - i,
{
    if i < j {
        lemma_symbol_run(s, i + 1, j);
    }
}

/// In the first `n` characters of a text a run of digits ends where it ends
/// in the whole text, or at `n` if that comes first.
pub proof fn lemma_digits_end_prefix(t: Seq<char>, n: int, i: int)
    requires
        0 <= i <= n <= t.len(),
    ensures
        digits_end(t.subrange(0, n), i) == if digits_end(t, i) <= n {
            digits_end(t, i)
        } else {
            n
        },
    decreases n - i,
{
    let p = t.subrange(0, n);
    if i < n {
        assert(p[i] == t[i]);
        if is_digit(t[i]) {
            lemma_digits_end_prefix(t, n, i + 1);
        }
    } else {
        lemma_digits_end(t, i);
    }
}

/// `rest` is the end of `s`.
pub open spec fn is_suffix(rest: Seq<char>, s: Seq<char>) -> bool {
    rest.len() <= s.len() && rest == s.subrange(s.len() - rest.len(), s.len() as int)
}

/// The end of the end of a text is an end of that text.
pub proof fn lemma_suffix_of_suffix(a: Seq<char>, b: Seq<char>, c: Seq<char>)
    requires
        is_suffix(a, b),
        is_suffix(b, c),
    ensures
        is_suffix(a, c),
{
    assert(a =~= c.subrange(c.len() - a.len(), c.len() as int));
}

/// Skipping whitespace leaves the end of the text.
pub proof fn lemma_skip_whitespace_suffix(s: Seq<char>)
    ensures
        is_suffix(skip_whitespace(s), s),
    decreases s.len(),
{
    if s.len() > 0 && is_whitespace(s[0]) {
        lemma_skip_whitespace_suffix(s.drop_first());
        assert(is_suffix(s.drop_first(), s));
        lemma_suffix_of_suffix(skip_whitespace(s), s.drop_first(), s);
    } else {
        assert(s =~= s.subrange(0, s.len() as int));
    }
}

/// The rest of a string literal, once read, leaves a shorter end of the
/// text.
pub proof fn lemma_string_body_leaves_suffix(s: Seq<char>, acc: Seq<char>)
    requires
        read_string_body(s, acc) is Ok,
    ensures
        is_suffix(read_string_body(s, acc)->Ok_0.1, s),
        read_string_body(s, acc)->Ok_0.1.len() < s.len(),
    decreases s.len(),
{
    if s[0] == '"' {
        assert(is_suffix(s.drop_first(), s));
    } else if s[0] == '\\' {
        let c = crate::grammar::unescape(s[1])->Some_0;
        let next = s.subrange(2, s.len() as int);
        lemma_string_body_leaves_suffix(next, acc.push(c));
        assert(is_suffix(next, s));
        lemma_suffix_of_suffix(read_string_body(s, acc)->Ok_0.1, next, s);
    } else {
        lemma_string_body_leaves_suffix(s.drop_first(), acc.push(s[0]));
        assert(is_suffix(s.drop_first(), s));
        lemma_suffix_of_suffix(read_string_body(s, acc)->Ok_0.1, s.drop_first(), s);
    }
}

/// A number or a symbol, once read, leaves a shorter end of the text.
pub proof fn lemma_token_leaves_suffix(s: Seq<char>)
    requires
        read_token(s) is Ok,
    ensures
        is_suffix(read_token(s)->Ok_0.1, s),
        read_token(s)->Ok_0.1.len() < s.len(),
{
    let a = sign_len(s);
    let b = digits_end(s, a);
    lemma_digits_end(s, a);
    if b < s.len() {
        lemma_digits_end(s, b + 1);
    }
    lemma_symbol_end(s, 0);
}

/// An atom, once read, leaves a shorter end of the text.
pub proof fn lemma_atom_leaves_suffix(s: Seq<char>)
    requires
        read_atom(s) is Ok,
    ensures
        is_suffix(read_atom(s)->Ok_0.1, s),
        read_atom(s)->Ok_0.1.len() < s.len(),
{
    let t = skip_whitespace(s);
    lemma_skip_whitespace_suffix(s);
    if t[0] == '"' {
        lemma_string_body_leaves_suffix(t.drop_first(), Seq::empty());
        assert(is_suffix(t.drop_first(), t));
        lemma_suffix_of_suffix(read_atom(s)->Ok_0.1, t.drop_first(), t);
    } else {
        lemma_token_leaves_suffix(t);
    }
    lemma_suffix_of_suffix(read_atom(s)->Ok_0.1, t, s);
}

/// A successful read consumes at least one character and leaves what
/// follows the expression as it was: the text left is a shorter end of the
/// text read from.
pub proof fn law_read_leaves_suffix(s: Seq<char>)
    requires
        read_exp(s) is Ok,
    ensures
        is_suffix(read_exp(s)->Ok_0.1, s),
        read_exp(s)->Ok_0.1.len() < s.len(),
    decreases s.len(), 4int,
{
    let rest = read_exp(s)->Ok_0.1;
    let tail = s.drop_first();
    assert(is_suffix(tail, s));
    if is_whitespace(s[0]) {
        law_read_leaves_suffix(tail);
        lemma_suffix_of_suffix(rest, tail, s);
    } else if s[0] == '(' {
        assert(read_exp(s) == read_list(s));
        lemma_items_leave_suffix(tail, ')');
        lemma_suffix_of_suffix(rest, tail, s);
    } else if s[0] == '[' {
        assert(read_exp(s) == read_vector(s));
        lemma_items_leave_suffix(tail, ']');
        lemma_suffix_of_suffix(rest, tail, s);
    } else if s[0] == '{' {
        assert(read_exp(s) == read_map(s));
        lemma_pairs_leave_suffix(tail);
        lemma_suffix_of_suffix(rest, tail, s);
    } else if s[0] == '#' {
        assert(read_exp(s) == read_set(tail));
        let inner = tail.drop_first();
        assert(is_suffix(inner, tail));
        lemma_items_leave_suffix(inner, '}');
        lemma_suffix_of_suffix(rest, inner, tail);
        lemma_suffix_of_suffix(rest, tail, s);
    } else {
        lemma_atom_leaves_suffix(s);
    }
}

/// The items of a collection, once read, leave a shorter end of the text.
pub proof fn lemma_items_leave_suffix(s: Seq<char>, close: char)
    requires
        read_items(s, close) is Ok,
    ensures
        is_suffix(read_items(s, close)->Ok_0.1, s),
        read_items(s, close)->Ok_0.1.len() < s.len(),
    decreases s.len(), 6int,
{
    if s[0] == close {
        assert(is_suffix(s.drop_first(), s));
    } else {
        lemma_more_items_leave_suffix(s, close, Seq::empty());
    }
}

/// An item and what follows it in a collection, once read, leave a
/// shorter end of the text.
pub proof fn lemma_more_items_leave_suffix(s: Seq<char>, close: char, acc: Seq<ExpView>)
    requires
        read_more_items(s, close, acc) is Ok,
    ensures
        is_suffix(read_more_items(s, close, acc)->Ok_0.1, s),
        read_more_items(s, close, acc)->Ok_0.1.len() < s.len(),
    decreases s.len(), 5int,
{
    let rest = read_more_items(s, close, acc)->Ok_0.1;
    let item = read_exp(s)->Ok_0.0;
    let after = read_exp(s)->Ok_0.1;
    law_read_leaves_suffix(s);
    let t = skip_whitespace(after);
    lemma_skip_whitespace_suffix(after);
    lemma_suffix_of_suffix(t, after, s);
    if t[0] == close {
        assert(is_suffix(t.drop_first(), t));
        lemma_suffix_of_suffix(rest, t, s);
    } else {
        lemma_more_items_leave_suffix(t, close, acc.push(item));
        lemma_suffix_of_suffix(rest, t, s);
    }
}

/// The pairs of a map, once read, leave a shorter end of the text.
pub proof fn lemma_pairs_leave_suffix(s: Seq<char>)
    requires
        read_pairs(s) is Ok,
    ensures
        is_suffix(read_pairs(s)->Ok_0.1, s),
        read_pairs(s)->Ok_0.1.len() < s.len(),
    decreases s.len(), 6int,
{
    if s[0] == '}' {
        assert(is_suffix(s.drop_first(), s));
    } else {
        lemma_more_pairs_leave_suffix(s, Seq::empty());
    }
}

/// A pair and what follows it in a map, once read, leave a shorter end of
/// the text.
pub proof fn lemma_more_pairs_leave_suffix(s: Seq<char>, acc: Seq<(ExpView, ExpView)>)
    requires
        read_more_pairs(s, acc) is Ok,
    ensures
        is_suffix(read_more_pairs(s, acc)->Ok_0.1, s),
        read_more_pairs(s, acc)->Ok_0.1.len() < s.len(),
    decreases s.len(), 5int,
{
    let rest = read_more_pairs(s, acc)->Ok_0.1;
    let key = read_exp(s)->Ok_0.0;
    let after_key = read_exp(s)->Ok_0.1;
    law_read_leaves_suffix(s);
    let value = read_exp(after_key)->Ok_0.0;
    let after = read_exp(after_key)->Ok_0.1;
    law_read_leaves_suffix(after_key);
    lemma_suffix_of_suffix(after, after_key, s);
    let t = skip_whitespace(after);
    lemma_skip_whitespace_suffix(after);
    lemma_suffix_of_suffix(t, after, s);
    if t[0] == '}' {
        assert(is_suffix(t.drop_first(), t));
        lemma_suffix_of_suffix(rest, t, s);
    } else {
        lemma_more_pairs_leave_suffix(t, acc.push((key, value)));
        lemma_suffix_of_suffix(rest, t, s);
    }
}

} // verus!
