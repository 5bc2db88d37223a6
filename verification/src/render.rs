//! The canonical text of an expression.

use vstd::prelude::*;
use crate::chars::digit_char;
use crate::types::atom::AtomView;
use crate::types::exp::ExpView;

verus! {

/// The decimal digits of `n`, without leading zeros.
pub open spec fn decimal_digits(n: nat) -> Seq<char>
    decreases n,
{
    if n < 10 {
        seq![digit_char(n)]
    } else {
        decimal_digits(n / 10).push(digit_char(n % 10))
    }
}

/// The decimal text of an integer: `-` before a negative one, no sign
/// otherwise.
pub open spec fn int_text(v: int) -> Seq<char> {
    if v < 0 {
        seq!['-'] + decimal_digits((-v) as nat)
    } else {
        decimal_digits(v as nat)
    }
}

/// The text of an atom.
///
/// A symbol and a float stand as they are, a keyword behind `:`, a string
/// between double quotes with its characters as they are, a character
/// between single quotes.
pub open spec fn render_atom(a: AtomView) -> Seq<char> {
    match a {
        AtomView::Symbol(s) => s,
        AtomView::Keyword(s) => seq![':'] + s,
        AtomView::Int(n) => int_text(n),
        AtomView::Float(s) => s,
        AtomView::String(s) => seq!['"'] + s + seq!['"'],
        AtomView::Character(c) => seq!['\'', c, '\''],
    }
}

/// The text of an expression: an atom's own text, or the texts of the
/// children, one space between them, inside `( )`, `[ ]`, `{ }` or `#{ }`.
pub open spec fn render(e: ExpView) -> Seq<char>
    decreases e, 0int,
{
    match e {
        ExpView::Atom(a) => render_atom(a),
        ExpView::List(items) => seq!['('] + render_items(items) + seq![')'],
        ExpView::Vector(items) => seq!['['] + render_items(items) + seq![']'],
        ExpView::MapForm(pairs) => seq!['{'] + render_pairs(pairs) + seq!['}'],
        ExpView::SetForm(items) => seq!['#', '{'] + render_items(items) + seq!['}'],
    }
}

/// The texts of `items`, one space between them.
pub open spec fn render_items(items: Seq<ExpView>) -> Seq<char>
    decreases items, 1int,
{
    if items.len() == 0 {
        Seq::empty()
    } else if items.len() == 1 {
        render(items[0])
    } else {
        render_items(items.drop_last()) + seq![' '] + render(items.last())
    }
}

/// The texts of the keys and values of `pairs` in turn, one space between
/// them.
pub open spec fn render_pairs(pairs: Seq<(ExpView, ExpView)>) -> Seq<char>
    decreases pairs, 1int,
{
    if pairs.len() == 0 {
        Seq::empty()
    } else if pairs.len() == 1 {
        render(pairs[0].0) + seq![' '] + render(pairs[0].1)
    } else {
        render_pairs(pairs.drop_last()) + seq![' '] + render(pairs.last().0) + seq![' '] + render(
            pairs.last().1,
        )
    }
}

} // verus!
