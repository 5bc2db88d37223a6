//! Reading what was rendered: which expressions come back as they were.

use vstd::prelude::*;
use crate::chars::{is_delimiter, is_digit, is_symbol_char, is_whitespace};
use crate::error::ReadError;
use crate::grammar::{
    digits_end, float_literal_len, int_literal_len, lemma_digits_end, lemma_symbol_end, read_atom,
    read_exp, read_items, read_list, read_map, read_more_items, read_more_pairs, read_pairs,
    read_set, read_string, read_string_body, read_token, read_vector, sign_len, skip_whitespace,
    symbol_end,
};
use crate::laws::{
    lemma_decimal_digits, lemma_digits_end_prefix, lemma_read_int_text, lemma_symbol_run,
};
use crate::render::{decimal_digits, render, render_atom, render_items, render_pairs};
use crate::steps::{first_exp, rep_text};
use crate::types::atom::AtomView;
use crate::types::exp::ExpView;

verus! {

/// The characters that an atom can start with where an expression is
/// read: no whitespace, and none of `(`, `[`, `{`, `#`, `)`, `]`, `}`.
pub open spec fn starts_atom(c: char) -> bool {
    !is_whitespace(c) && c != '(' && c != '[' && c != '{' && c != '#' && c != ')' && c != ']' && c
        != '}'
}

/// An atom as a read gives it: an integer of 64 bits; a float whose text is
/// a float literal and nothing else; a symbol whose name is a run of symbol
/// characters that starts like an atom and is no number; any string.
pub open spec fn well_formed_atom(a: AtomView) -> bool {
    match a {
        AtomView::Int(n) => i64::MIN <= n <= i64::MAX,
        AtomView::Float(text) => int_literal_len(text) is None && float_literal_len(text) == Some(
            text.len() as int,
        ),
        AtomView::Symbol(name) => {
            &&& name.len() > 0
            &&& symbol_end(name, 0) == name.len()
            &&& starts_atom(name[0])
            &&& name[0] != '"'
            &&& int_literal_len(name) is None
            &&& float_literal_len(name) is None
        },
        AtomView::String(_) => true,
        AtomView::Keyword(_) => false,
        AtomView::Character(_) => false,
    }
}

/// An atom whose text holds every character as it is: any atom but a string
/// with `"` or `\` in it.
pub open spec fn plain_atom(a: AtomView) -> bool {
    match a {
        AtomView::String(text) => forall|k: int|
            0 <= k < text.len() ==> text[k] != '"' && text[k] != '\\',
        _ => true,
    }
}

/// The characters that may follow an atom's text without changing what is
/// read: a delimiter behind a number, a character that ends a symbol behind
/// a symbol, anything behind a string.
pub open spec fn may_follow(a: AtomView, c: char) -> bool {
    match a {
        AtomView::Symbol(_) => !is_symbol_char(c),
        AtomView::String(_) => true,
        _ => is_delimiter(c),
    }
}

/// A run of digits ends at the same place when a text that starts with no
/// digit is put behind the text.
pub proof fn lemma_digits_end_extend(p: Seq<char>, tail: Seq<char>, i: int)
    requires
        0 <= i <= p.len(),
        tail.len() == 0 || !is_digit(tail[0]),
    ensures
        digits_end(p + tail, i) == digits_end(p, i),
    decreases p.len() - i,
{
    let s = p + tail;
    if i < p.len() {
        assert(s[i] == p[i]);
        if is_digit(p[i]) {
            lemma_digits_end_extend(p, tail, i + 1);
        }
    } else if tail.len() > 0 {
        assert(s[i] == tail[0]);
    }
}

/// A text without `"` and `\`, closed by `"`, is read as the rest of a
/// string literal: it is added to what was decoded before, and what
/// follows the `"` is left.
pub proof fn lemma_plain_string_body(text: Seq<char>, acc: Seq<char>, tail: Seq<char>)
    requires
        forall|k: int| 0 <= k < text.len() ==> text[k] != '"' && text[k] != '\\',
    ensures
        read_string_body(text.push('"') + tail, acc) == Ok::<(Seq<char>, Seq<char>), ReadError>(
            (acc + text, tail),
        ),
    decreases text.len(),
{
    let s = text.push('"') + tail;
    if text.len() == 0 {
        assert(s[0] == '"');
        assert(s.drop_first() =~= tail);
        assert(acc + text =~= acc);
    } else {
        assert(s[0] == text[0]);
        assert(s.drop_first() =~= text.drop_first().push('"') + tail);
        lemma_plain_string_body(text.drop_first(), acc.push(text[0]), tail);
        assert(acc.push(text[0]) + text.drop_first() =~= acc + text);
    }
}

/// The text of a well-formed atom is not empty and starts like an atom.
pub proof fn lemma_atom_text_start(a: AtomView)
    requires
        well_formed_atom(a),
    ensures
        render_atom(a).len() > 0,
        starts_atom(render_atom(a)[0]),
        a is String <==> render_atom(a)[0] == '"',
{
    match a {
        AtomView::Int(n) => {
            if n < 0 {
                lemma_decimal_digits((-n) as nat);
            } else {
                lemma_decimal_digits(n as nat);
                assert(is_digit(decimal_digits(n as nat)[0]));
            }
        },
        AtomView::Float(text) => {
            let a0 = sign_len(text);
            lemma_digits_end(text, a0);
            let b = digits_end(text, a0);
            if a0 == 0 && b > 0 {
                assert(is_digit(text[0]));
            }
        },
        _ => {},
    }
}

/// The text of a well-formed float, before the end of the text or a
/// delimiter, is read as that float.
pub proof fn lemma_float_text_reads_back(text: Seq<char>, tail: Seq<char>)
    requires
        well_formed_atom(AtomView::Float(text)),
        tail.len() == 0 || is_delimiter(tail[0]),
    ensures
        read_token(text + tail) == Ok::<(ExpView, Seq<char>), ReadError>(
            (ExpView::Atom(AtomView::Float(text)), tail),
        ),
{
    let s = text + tail;
    let a = sign_len(text);
    let b = digits_end(text, a);
    let c = text.len() as int;
    lemma_digits_end(text, a);
    assert(s[0] == text[0]);
    assert(sign_len(s) == a);
    lemma_digits_end_extend(text, tail, a);
    assert(s[b] == text[b]);
    lemma_digits_end_extend(text, tail, b + 1);
    if tail.len() > 0 {
        assert(s[c] == tail[0]);
    }
    assert(int_literal_len(s) is None);
    assert(float_literal_len(s) == Some(c));
    assert(s.subrange(0, c) =~= text);
    assert(s.subrange(c, s.len() as int) =~= tail);
}

/// The name of a well-formed symbol, before the end of the text or a
/// character that ends a symbol, is read as that symbol.
pub proof fn lemma_symbol_text_reads_back(name: Seq<char>, tail: Seq<char>)
    requires
        well_formed_atom(AtomView::Symbol(name)),
        tail.len() == 0 || !is_symbol_char(tail[0]),
    ensures
        read_token(name + tail) == Ok::<(ExpView, Seq<char>), ReadError>(
            (ExpView::Atom(AtomView::Symbol(name)), tail),
        ),
{
    let s = name + tail;
    let n = name.len() as int;
    let a = sign_len(name);
    let b = digits_end(name, a);
    lemma_symbol_end(name, 0);
    lemma_digits_end(name, a);
    assert(s[0] == name[0]);
    assert(sign_len(s) == a);
    if tail.len() > 0 {
        assert(s[n] == tail[0]);
    }
    lemma_digits_end_extend(name, tail, a);
    if b < n {
        assert(s[b] == name[b]);
        lemma_digits_end(name, b + 1);
        lemma_digits_end_extend(name, tail, b + 1);
        let c = digits_end(name, b + 1);
        if c < n {
            assert(s[c] == name[c]);
        }
    }
    assert(int_literal_len(s) is None);
    assert(float_literal_len(s) is None);
    assert forall|k: int| 0 <= k < n implies is_symbol_char(#[trigger] s[k]) by {
        assert(s[k] == name[k]);
    }
    lemma_symbol_run(s, 0, n);
    assert(s.subrange(0, n) =~= name);
    assert(s.subrange(n, s.len() as int) =~= tail);
}

/// The text of a well-formed, plain atom, before the end of the text or a
/// character that may follow the atom, is read as that atom, and what
/// follows the text is left.
pub proof fn lemma_atom_text_reads_back(a: AtomView, tail: Seq<char>)
    requires
        well_formed_atom(a),
        plain_atom(a),
        tail.len() == 0 || may_follow(a, tail[0]),
    ensures
        read_exp(render_atom(a) + tail) == Ok::<(ExpView, Seq<char>), ReadError>(
            (ExpView::Atom(a), tail),
        ),
{
    let r = render_atom(a);
    let s = r + tail;
    lemma_atom_text_start(a);
    assert(s[0] == r[0]);
    assert(skip_whitespace(s) == s);
    assert(read_exp(s) == read_atom(s));
    match a {
        AtomView::Int(n) => {
            lemma_read_int_text(n as i64, tail);
        },
        AtomView::Float(text) => {
            lemma_float_text_reads_back(text, tail);
        },
        AtomView::Symbol(name) => {
            lemma_symbol_text_reads_back(name, tail);
        },
        AtomView::String(text) => {
            assert(s.drop_first() =~= text.push('"') + tail);
            lemma_plain_string_body(text, Seq::empty(), tail);
            assert(Seq::<char>::empty() + text =~= text);
            assert(read_atom(s) == read_string(s));
        },
        _ => {},
    }
}

/// An atom that is well formed and plain.
pub open spec fn plain_leaf(e: ExpView) -> bool {
    e is Atom && well_formed_atom(e->Atom_0) && plain_atom(e->Atom_0)
}

/// The text of two or more items is the text of the first, a space, and
/// the text of the others.
pub proof fn lemma_render_items_front(items: Seq<ExpView>)
    requires
        items.len() >= 2,
    ensures
        render_items(items) == render(items[0]) + seq![' '] + render_items(items.drop_first()),
    decreases items.len(),
{
    let init = items.drop_last();
    let rest = items.drop_first();
    if items.len() == 2 {
        assert(init[0] == items[0]);
        assert(rest[0] == items.last());
        assert(render_items(init) == render(items[0]));
        assert(render_items(rest) == render(items.last()));
    } else {
        lemma_render_items_front(init);
        assert(init[0] == items[0]);
        assert(rest.drop_last() =~= init.drop_first());
        assert(rest.last() == items.last());
        assert(render_items(items) =~= render(items[0]) + seq![' '] + (render_items(
            rest.drop_last(),
        ) + seq![' '] + render(rest.last())));
    }
}

/// The text of two or more pairs is the text of the first key, a space,
/// the text of the first value, a space, and the text of the other pairs.
pub proof fn lemma_render_pairs_front(pairs: Seq<(ExpView, ExpView)>)
    requires
        pairs.len() >= 2,
    ensures
        render_pairs(pairs) == render(pairs[0].0) + seq![' '] + render(pairs[0].1) + seq![' ']
            + render_pairs(pairs.drop_first()),
    decreases pairs.len(),
{
    let init = pairs.drop_last();
    let rest = pairs.drop_first();
    if pairs.len() == 2 {
        assert(init[0] == pairs[0]);
        assert(rest[0] == pairs.last());
        assert(render_pairs(init) == render(pairs[0].0) + seq![' '] + render(pairs[0].1));
        assert(render_pairs(rest) == render(pairs.last().0) + seq![' '] + render(pairs.last().1));
        assert(render_pairs(pairs) =~= render(pairs[0].0) + seq![' '] + render(pairs[0].1) + seq![
            ' ',
        ] + render_pairs(rest));
    } else {
        lemma_render_pairs_front(init);
        assert(init[0] == pairs[0]);
        assert(rest.drop_last() =~= init.drop_first());
        assert(rest.last() == pairs.last());
        assert(render_pairs(pairs) =~= render(pairs[0].0) + seq![' '] + render(pairs[0].1) + seq![
            ' ',
        ] + (render_pairs(rest.drop_last()) + seq![' '] + render(rest.last().0) + seq![' ']
            + render(rest.last().1)));
    }
}

/// The text of one or more items starts as the text of the first does.
pub proof fn lemma_items_text_start(items: Seq<ExpView>)
    requires
        items.len() > 0,
        render(items[0]).len() > 0,
    ensures
        render_items(items).len() > 0,
        render_items(items)[0] == render(items[0])[0],
{
    if items.len() >= 2 {
        lemma_render_items_front(items);
    }
}

/// The text of one or more pairs starts as the text of the first key does.
pub proof fn lemma_pairs_text_start(pairs: Seq<(ExpView, ExpView)>)
    requires
        pairs.len() > 0,
        render(pairs[0].0).len() > 0,
    ensures
        render_pairs(pairs).len() > 0,
        render_pairs(pairs)[0] == render(pairs[0].0)[0],
{
    if pairs.len() >= 2 {
        lemma_render_pairs_front(pairs);
    }
}

/// The text of one or more plain atoms, closed by `close`, is read as those
/// items behind the items read before, if the last of them is no symbol or
/// `close` is `)`: any other closing delimiter would be read as part of
/// the symbol.
pub proof fn lemma_items_text_reads_back(items: Seq<ExpView>, close: char, acc: Seq<ExpView>)
    requires
        items.len() > 0,
        forall|k: int| 0 <= k < items.len() ==> plain_leaf(#[trigger] items[k]),
        close == ')' || close == ']' || close == '}',
        close != ')' ==> !(items.last()->Atom_0 is Symbol),
    ensures
        read_more_items(render_items(items).push(close), close, acc) == Ok::<
            (Seq<ExpView>, Seq<char>),
            ReadError,
        >((acc + items, Seq::empty())),
    decreases items.len(),
{
    let s = render_items(items).push(close);
    assert(plain_leaf(items[0]));
    let a0 = items[0]->Atom_0;
    let r0 = render_atom(a0);
    assert(render(items[0]) == r0);
    lemma_atom_text_start(a0);
    if items.len() == 1 {
        let tail = seq![close];
        assert(s =~= r0 + tail);
        lemma_atom_text_reads_back(a0, tail);
        assert(skip_whitespace(tail) == tail);
        assert(tail.drop_first() =~= Seq::<char>::empty());
        assert(acc.push(items[0]) =~= acc + items);
    } else {
        let rest = items.drop_first();
        lemma_render_items_front(items);
        let t = render_items(rest).push(close);
        let tail = seq![' '] + t;
        assert(s =~= r0 + tail);
        lemma_atom_text_reads_back(a0, tail);
        assert(plain_leaf(rest[0]));
        assert(render(rest[0]) == render_atom(rest[0]->Atom_0));
        lemma_atom_text_start(rest[0]->Atom_0);
        lemma_items_text_start(rest);
        assert(t[0] == render_items(rest)[0]);
        assert(tail.drop_first() =~= t);
        assert(is_whitespace(tail[0]));
        assert(skip_whitespace(t) == t);
        assert(skip_whitespace(tail) == t);
        assert(rest.last() == items.last());
        assert forall|k: int| 0 <= k < rest.len() implies plain_leaf(#[trigger] rest[k]) by {
            assert(rest[k] == items[k + 1]);
        }
        lemma_items_text_reads_back(rest, close, acc.push(items[0]));
        assert(acc.push(items[0]) + rest =~= acc + items);
    }
}

/// The texts of a key and a value with a space between them are read as
/// that key and then that value, and what follows the value is left.
pub proof fn lemma_pair_text_reads_back(key: AtomView, value: AtomView, tail: Seq<char>)
    requires
        well_formed_atom(key),
        plain_atom(key),
        well_formed_atom(value),
        plain_atom(value),
        tail.len() == 0 || may_follow(value, tail[0]),
    ensures
        read_exp(render_atom(key) + (seq![' '] + (render_atom(value) + tail))) == Ok::<
            (ExpView, Seq<char>),
            ReadError,
        >((ExpView::Atom(key), seq![' '] + (render_atom(value) + tail))),
        read_exp(seq![' '] + (render_atom(value) + tail)) == Ok::<(ExpView, Seq<char>), ReadError>(
            (ExpView::Atom(value), tail),
        ),
{
    let after_key = seq![' '] + (render_atom(value) + tail);
    lemma_atom_text_reads_back(key, after_key);
    lemma_atom_text_reads_back(value, tail);
    assert(after_key.drop_first() =~= render_atom(value) + tail);
    assert(is_whitespace(after_key[0]));
}

/// What follows a pair in a map's text: `}` ends the map, and before a
/// further pair the space is skipped.
pub proof fn lemma_after_pair(rest: Seq<(ExpView, ExpView)>)
    requires
        rest.len() > 0,
        plain_leaf(rest[0].0),
    ensures
        skip_whitespace(seq![' '] + render_pairs(rest).push('}')) == render_pairs(rest).push('}'),
        render_pairs(rest).push('}')[0] != '}',
        skip_whitespace(seq!['}']) == seq!['}'],
{
    let t = render_pairs(rest).push('}');
    let tail = seq![' '] + t;
    assert(render(rest[0].0) == render_atom(rest[0].0->Atom_0));
    lemma_atom_text_start(rest[0].0->Atom_0);
    lemma_pairs_text_start(rest);
    assert(t[0] == render_pairs(rest)[0]);
    assert(tail.drop_first() =~= t);
    assert(is_whitespace(tail[0]));
    assert(skip_whitespace(t) == t);
    assert(skip_whitespace(tail) == skip_whitespace(tail.drop_first()));
}

/// The text of one or more pairs of plain atoms, closed by `}`, is read as
/// those pairs behind the pairs read before, if the last value is no
/// symbol.
pub proof fn lemma_pairs_text_reads_back(
    pairs: Seq<(ExpView, ExpView)>,
    acc: Seq<(ExpView, ExpView)>,
)
    requires
        pairs.len() > 0,
        forall|k: int|
            0 <= k < pairs.len() ==> plain_leaf((#[trigger] pairs[k]).0) && plain_leaf(pairs[k].1),
        !(pairs.last().1->Atom_0 is Symbol),
    ensures
        read_more_pairs(render_pairs(pairs).push('}'), acc) == Ok::<
            (Seq<(ExpView, ExpView)>, Seq<char>),
            ReadError,
        >((acc + pairs, Seq::empty())),
    decreases pairs.len(),
{
    let s = render_pairs(pairs).push('}');
    assert(plain_leaf(pairs[0].0) && plain_leaf(pairs[0].1));
    let key = pairs[0].0->Atom_0;
    let value = pairs[0].1->Atom_0;
    let rk = render_atom(key);
    let rv = render_atom(value);
    assert(render(pairs[0].0) == rk);
    assert(render(pairs[0].1) == rv);
    assert(pairs[0] == (ExpView::Atom(key), ExpView::Atom(value)));
    lemma_atom_text_start(key);
    if pairs.len() == 1 {
        let tail = seq!['}'];
        let after_key = seq![' '] + (rv + tail);
        assert(s =~= rk + after_key);
        lemma_pair_text_reads_back(key, value, tail);
        assert(after_key.len() < s.len());
        assert(skip_whitespace(tail) == tail);
        assert(tail.drop_first() =~= Seq::<char>::empty());
        assert(acc.push(pairs[0]) =~= acc + pairs);
    } else {
        let rest = pairs.drop_first();
        lemma_render_pairs_front(pairs);
        let t = render_pairs(rest).push('}');
        let tail = seq![' '] + t;
        let after_key = seq![' '] + (rv + tail);
        assert(s =~= rk + after_key);
        lemma_pair_text_reads_back(key, value, tail);
        assert(after_key.len() < s.len());
        assert(rest[0] == pairs[1]);
        lemma_after_pair(rest);
        assert(skip_whitespace(tail) == t);
        assert(t.len() < s.len());
        assert(rest.last() == pairs.last());
        assert forall|k: int| 0 <= k < rest.len() implies plain_leaf((#[trigger] rest[k]).0)
            && plain_leaf(rest[k].1) by {
            assert(rest[k] == pairs[k + 1]);
        }
        lemma_pairs_text_reads_back(rest, acc.push(pairs[0]));
        assert(acc.push(pairs[0]) + rest =~= acc + pairs);
    }
}

/// The expressions without nesting whose text reads back: a well-formed,
/// plain atom, and a collection of such atoms; in a vector, a set or a map
/// the last atom is no symbol, since the closing delimiter would be read as
/// part of it.
pub open spec fn flat_and_plain(e: ExpView) -> bool {
    match e {
        ExpView::Atom(_) => plain_leaf(e),
        ExpView::List(items) => forall|k: int| 0 <= k < items.len() ==> plain_leaf(#[trigger] items[k]),
        ExpView::Vector(items) => {
            &&& forall|k: int| 0 <= k < items.len() ==> plain_leaf(#[trigger] items[k])
            &&& items.len() > 0 ==> !(items.last()->Atom_0 is Symbol)
        },
        ExpView::SetForm(items) => {
            &&& forall|k: int| 0 <= k < items.len() ==> plain_leaf(#[trigger] items[k])
            &&& items.len() > 0 ==> !(items.last()->Atom_0 is Symbol)
        },
        ExpView::MapForm(pairs) => {
            &&& forall|k: int|
                0 <= k < pairs.len() ==> plain_leaf((#[trigger] pairs[k]).0) && plain_leaf(
                    pairs[k].1,
                )
            &&& pairs.len() > 0 ==> !(pairs.last().1->Atom_0 is Symbol)
        },
    }
}

/// The items of a collection of plain atoms read back from their text
/// behind the opening delimiter.
pub proof fn lemma_collection_text_reads_back(items: Seq<ExpView>, close: char)
    requires
        forall|k: int| 0 <= k < items.len() ==> plain_leaf(#[trigger] items[k]),
        close == ')' || close == ']' || close == '}',
        items.len() > 0 && close != ')' ==> !(items.last()->Atom_0 is Symbol),
    ensures
        read_items(render_items(items).push(close), close) == Ok::<
            (Seq<ExpView>, Seq<char>),
            ReadError,
        >((items, Seq::empty())),
{
    let s = render_items(items).push(close);
    if items.len() == 0 {
        assert(s.drop_first() =~= Seq::<char>::empty());
        assert(items =~= Seq::<ExpView>::empty());
    } else {
        assert(plain_leaf(items[0]));
        assert(render(items[0]) == render_atom(items[0]->Atom_0));
        lemma_atom_text_start(items[0]->Atom_0);
        lemma_items_text_start(items);
        assert(s[0] == render_items(items)[0]);
        lemma_items_text_reads_back(items, close, Seq::empty());
        assert(Seq::<ExpView>::empty() + items =~= items);
    }
}

/// The text of a list of plain atoms reads back as that list.
pub proof fn lemma_list_text_reads_back(items: Seq<ExpView>)
    requires
        flat_and_plain(ExpView::List(items)),
    ensures
        read_exp(render(ExpView::List(items))) == Ok::<(ExpView, Seq<char>), ReadError>(
            (ExpView::List(items), Seq::empty()),
        ),
{
    let r = render(ExpView::List(items));
    lemma_collection_text_reads_back(items, ')');
    assert(r[0] == '(');
    assert(r.drop_first() =~= render_items(items).push(')'));
    assert(read_exp(r) == read_list(r));
}

/// The text of a vector of plain atoms, the last of them no symbol, reads
/// back as that vector.
pub proof fn lemma_vector_text_reads_back(items: Seq<ExpView>)
    requires
        flat_and_plain(ExpView::Vector(items)),
    ensures
        read_exp(render(ExpView::Vector(items))) == Ok::<(ExpView, Seq<char>), ReadError>(
            (ExpView::Vector(items), Seq::empty()),
        ),
{
    let r = render(ExpView::Vector(items));
    lemma_collection_text_reads_back(items, ']');
    assert(r[0] == '[');
    assert(r.drop_first() =~= render_items(items).push(']'));
    assert(read_exp(r) == read_vector(r));
}

/// The text of a set of plain atoms, the last of them no symbol, reads
/// back as that set.
pub proof fn lemma_set_text_reads_back(items: Seq<ExpView>)
    requires
        flat_and_plain(ExpView::SetForm(items)),
    ensures
        read_exp(render(ExpView::SetForm(items))) == Ok::<(ExpView, Seq<char>), ReadError>(
            (ExpView::SetForm(items), Seq::empty()),
        ),
{
    let r = render(ExpView::SetForm(items));
    lemma_collection_text_reads_back(items, '}');
    assert(r[0] == '#');
    assert(r[1] == '{');
    assert(r.drop_first().drop_first() =~= render_items(items).push('}'));
    assert(read_exp(r) == read_set(r.drop_first()));
}

/// The text of a map of plain atoms, its last value no symbol, reads back
/// as that map.
pub proof fn lemma_map_text_reads_back(pairs: Seq<(ExpView, ExpView)>)
    requires
        flat_and_plain(ExpView::MapForm(pairs)),
    ensures
        read_exp(render(ExpView::MapForm(pairs))) == Ok::<(ExpView, Seq<char>), ReadError>(
            (ExpView::MapForm(pairs), Seq::empty()),
        ),
{
    let r = render(ExpView::MapForm(pairs));
    let s = render_pairs(pairs).push('}');
    assert(r[0] == '{');
    assert(r.drop_first() =~= s);
    if pairs.len() == 0 {
        assert(s.drop_first() =~= Seq::<char>::empty());
        assert(pairs =~= Seq::<(ExpView, ExpView)>::empty());
    } else {
        assert(plain_leaf(pairs[0].0));
        assert(render(pairs[0].0) == render_atom(pairs[0].0->Atom_0));
        lemma_atom_text_start(pairs[0].0->Atom_0);
        lemma_pairs_text_start(pairs);
        assert(s[0] == render_pairs(pairs)[0]);
        lemma_pairs_text_reads_back(pairs, Seq::empty());
        assert(Seq::<(ExpView, ExpView)>::empty() + pairs =~= pairs);
    }
    assert(read_exp(r) == read_map(r));
}

/// The text of a plain atom, or of a collection of plain atoms that ends
/// in no symbol before `]` or `}`, reads back as the same expression, and
/// nothing is left.
pub proof fn lemma_flat_text_reads_back(e: ExpView)
    requires
        flat_and_plain(e),
    ensures
        read_exp(render(e)) == Ok::<(ExpView, Seq<char>), ReadError>((e, Seq::empty())),
{
    match e {
        ExpView::Atom(a) => {
            lemma_atom_text_reads_back(a, Seq::empty());
            assert(render_atom(a) + Seq::<char>::empty() =~= render(e));
        },
        ExpView::List(items) => {
            lemma_list_text_reads_back(items);
        },
        ExpView::Vector(items) => {
            lemma_vector_text_reads_back(items);
        },
        ExpView::SetForm(items) => {
            lemma_set_text_reads_back(items);
        },
        ExpView::MapForm(pairs) => {
            lemma_map_text_reads_back(pairs);
        },
    }
}

/// An expression as a read gives it: its atoms are well formed, at every
/// depth.
pub open spec fn well_formed(e: ExpView) -> bool
    decreases e,
{
    match e {
        ExpView::Atom(a) => well_formed_atom(a),
        ExpView::List(items) => forall|k: int|
            0 <= k < items.len() ==> well_formed(#[trigger] items[k]),
        ExpView::Vector(items) => forall|k: int|
            0 <= k < items.len() ==> well_formed(#[trigger] items[k]),
        ExpView::SetForm(items) => forall|k: int|
            0 <= k < items.len() ==> well_formed(#[trigger] items[k]),
        ExpView::MapForm(pairs) => forall|k: int|
            0 <= k < pairs.len() ==> well_formed((#[trigger] pairs[k]).0) && well_formed(
                pairs[k].1,
            ),
    }
}

/// A number or a symbol that is read where an atom can start is a
/// well-formed atom.
pub proof fn lemma_token_well_formed(t: Seq<char>)
    requires
        read_token(t) is Ok,
        t.len() > 0,
        starts_atom(t[0]),
        t[0] != '"',
    ensures
        read_token(t)->Ok_0.0 is Atom,
        well_formed_atom(read_token(t)->Ok_0.0->Atom_0),
{
    let a = sign_len(t);
    let b = digits_end(t, a);
    lemma_digits_end(t, a);
    if int_literal_len(t) is Some {
    } else if float_literal_len(t) is Some {
        let c = digits_end(t, b + 1);
        let text = t.subrange(0, c);
        lemma_digits_end(t, b + 1);
        assert(text[0] == t[0]);
        assert(sign_len(text) == a);
        lemma_digits_end_prefix(t, c, a);
        assert(digits_end(text, a) == b);
        assert(text[b] == '.');
        lemma_digits_end_prefix(t, c, b + 1);
        assert(digits_end(text, b + 1) == c);
        assert(int_literal_len(text) is None);
        assert(float_literal_len(text) == Some(c));
    } else {
        let n = symbol_end(t, 0);
        let name = t.subrange(0, n);
        lemma_symbol_end(t, 0);
        assert(name[0] == t[0]);
        assert(sign_len(name) == a);
        lemma_digits_end_prefix(t, n, a);
        if b > n {
            assert(is_digit(t[n]));
        }
        assert(digits_end(name, a) == b);
        if b < n {
            assert(name[b] == t[b]);
        }
        assert(int_literal_len(name) is None);
        if b < n {
            lemma_digits_end(t, b + 1);
            lemma_digits_end_prefix(t, n, b + 1);
            let c = digits_end(t, b + 1);
            if c > n {
                assert(is_digit(t[n]));
            }
            assert(digits_end(name, b + 1) == c);
            if c < n {
                assert(name[c] == t[c]);
            }
        }
        assert(float_literal_len(name) is None);
        assert forall|k: int| 0 <= k < n implies is_symbol_char(#[trigger] name[k]) by {
            assert(name[k] == t[k]);
        }
        lemma_symbol_run(name, 0, n);
    }
}

/// Every expression that is read is well formed.
pub proof fn law_read_gives_well_formed(s: Seq<char>)
    requires
        read_exp(s) is Ok,
    ensures
        well_formed(read_exp(s)->Ok_0.0),
    decreases s.len(), 4int,
{
    let tail = s.drop_first();
    if is_whitespace(s[0]) {
        law_read_gives_well_formed(tail);
    } else if s[0] == '(' {
        assert(read_exp(s) == read_list(s));
        lemma_items_well_formed(tail, ')');
    } else if s[0] == '[' {
        assert(read_exp(s) == read_vector(s));
        lemma_items_well_formed(tail, ']');
    } else if s[0] == '{' {
        assert(read_exp(s) == read_map(s));
        lemma_pairs_well_formed(tail);
    } else if s[0] == '#' {
        assert(read_exp(s) == read_set(tail));
        lemma_items_well_formed(tail.drop_first(), '}');
    } else {
        assert(skip_whitespace(s) == s);
        assert(read_exp(s) == read_atom(s));
        if s[0] != '"' {
            lemma_token_well_formed(s);
        }
    }
}

/// The items of a collection that is read are well formed.
pub proof fn lemma_items_well_formed(s: Seq<char>, close: char)
    requires
        read_items(s, close) is Ok,
    ensures
        forall|k: int|
            0 <= k < read_items(s, close)->Ok_0.0.len() ==> well_formed(
                #[trigger] read_items(s, close)->Ok_0.0[k],
            ),
    decreases s.len(), 6int,
{
    if s[0] != close {
        lemma_more_items_well_formed(s, close, Seq::empty());
    }
}

/// Where the items read so far are well formed, so are all the items of
/// the collection.
pub proof fn lemma_more_items_well_formed(s: Seq<char>, close: char, acc: Seq<ExpView>)
    requires
        read_more_items(s, close, acc) is Ok,
        forall|k: int| 0 <= k < acc.len() ==> well_formed(#[trigger] acc[k]),
    ensures
        forall|k: int|
            0 <= k < read_more_items(s, close, acc)->Ok_0.0.len() ==> well_formed(
                #[trigger] read_more_items(s, close, acc)->Ok_0.0[k],
            ),
    decreases s.len(), 5int,
{
    let item = read_exp(s)->Ok_0.0;
    let after = read_exp(s)->Ok_0.1;
    law_read_gives_well_formed(s);
    let t = skip_whitespace(after);
    let next = acc.push(item);
    assert forall|k: int| 0 <= k < next.len() implies well_formed(#[trigger] next[k]) by {
        if k < acc.len() {
            assert(next[k] == acc[k]);
        }
    }
    if t[0] != close {
        lemma_more_items_well_formed(t, close, next);
    }
}

/// The keys and values of a map that is read are well formed.
pub proof fn lemma_pairs_well_formed(s: Seq<char>)
    requires
        read_pairs(s) is Ok,
    ensures
        forall|k: int|
            0 <= k < read_pairs(s)->Ok_0.0.len() ==> well_formed(
                (#[trigger] read_pairs(s)->Ok_0.0[k]).0,
            ) && well_formed(read_pairs(s)->Ok_0.0[k].1),
    decreases s.len(), 6int,
{
    if s[0] != '}' {
        lemma_more_pairs_well_formed(s, Seq::empty());
    }
}

/// Where the pairs read so far are well formed, so are all the pairs of
/// the map.
pub proof fn lemma_more_pairs_well_formed(s: Seq<char>, acc: Seq<(ExpView, ExpView)>)
    requires
        read_more_pairs(s, acc) is Ok,
        forall|k: int|
            0 <= k < acc.len() ==> well_formed((#[trigger] acc[k]).0) && well_formed(acc[k].1),
    ensures
        forall|k: int|
            0 <= k < read_more_pairs(s, acc)->Ok_0.0.len() ==> well_formed(
                (#[trigger] read_more_pairs(s, acc)->Ok_0.0[k]).0,
            ) && well_formed(read_more_pairs(s, acc)->Ok_0.0[k].1),
    decreases s.len(), 5int,
{
    let key = read_exp(s)->Ok_0.0;
    let after_key = read_exp(s)->Ok_0.1;
    law_read_gives_well_formed(s);
    let value = read_exp(after_key)->Ok_0.0;
    let after = read_exp(after_key)->Ok_0.1;
    law_read_gives_well_formed(after_key);
    let t = skip_whitespace(after);
    let next = acc.push((key, value));
    assert forall|k: int| 0 <= k < next.len() implies well_formed((#[trigger] next[k]).0)
        && well_formed(next[k].1) by {
        if k < acc.len() {
            assert(next[k] == acc[k]);
        }
    }
    if t[0] != '}' {
        lemma_more_pairs_well_formed(t, next);
    }
}

/// The expressions without nesting whose text holds all that they are: an
/// atom that is plain, or a collection of plain atoms; in a vector, a set
/// or a map the last atom is no symbol, since the closing delimiter would
/// be read as part of it.
pub open spec fn keeps_its_text(e: ExpView) -> bool {
    match e {
        ExpView::Atom(a) => plain_atom(a),
        ExpView::List(items) => forall|k: int|
            0 <= k < items.len() ==> (#[trigger] items[k]) is Atom && plain_atom(items[k]->Atom_0),
        ExpView::Vector(items) => {
            &&& forall|k: int|
                0 <= k < items.len() ==> (#[trigger] items[k]) is Atom && plain_atom(
                    items[k]->Atom_0,
                )
            &&& items.len() > 0 ==> !(items.last()->Atom_0 is Symbol)
        },
        ExpView::SetForm(items) => {
            &&& forall|k: int|
                0 <= k < items.len() ==> (#[trigger] items[k]) is Atom && plain_atom(
                    items[k]->Atom_0,
                )
            &&& items.len() > 0 ==> !(items.last()->Atom_0 is Symbol)
        },
        ExpView::MapForm(pairs) => {
            &&& forall|k: int|
                0 <= k < pairs.len() ==> {
                    &&& (#[trigger] pairs[k]).0 is Atom
                    &&& plain_atom(pairs[k].0->Atom_0)
                    &&& pairs[k].1 is Atom
                    &&& plain_atom(pairs[k].1->Atom_0)
                }
            &&& pairs.len() > 0 ==> !(pairs.last().1->Atom_0 is Symbol)
        },
    }
}

/// Where a read gave an atom or a collection of atoms, the text that the
/// expression renders to reads back as the same expression, and nothing is
/// left. Left out are the expressions whose text does not hold all that
/// they are: a string with `"` or `\` in it, and a vector, a set or a map
/// that ends in a symbol.
pub proof fn law_rendered_text_reads_back(s: Seq<char>)
    requires
        read_exp(s) is Ok,
        keeps_its_text(read_exp(s)->Ok_0.0),
    ensures
        read_exp(render(read_exp(s)->Ok_0.0)) == Ok::<(ExpView, Seq<char>), ReadError>(
            (read_exp(s)->Ok_0.0, Seq::empty()),
        ),
{
    let e = read_exp(s)->Ok_0.0;
    law_read_gives_well_formed(s);
    match e {
        ExpView::Atom(_) => {},
        ExpView::List(items) => {
            assert forall|k: int| 0 <= k < items.len() implies plain_leaf(#[trigger] items[k]) by {
                assert(well_formed(items[k]));
            }
        },
        ExpView::Vector(items) => {
            assert forall|k: int| 0 <= k < items.len() implies plain_leaf(#[trigger] items[k]) by {
                assert(well_formed(items[k]));
            }
        },
        ExpView::SetForm(items) => {
            assert forall|k: int| 0 <= k < items.len() implies plain_leaf(#[trigger] items[k]) by {
                assert(well_formed(items[k]));
            }
        },
        ExpView::MapForm(pairs) => {
            assert forall|k: int| 0 <= k < pairs.len() implies plain_leaf((#[trigger] pairs[k]).0)
                && plain_leaf(pairs[k].1) by {
                assert(well_formed(pairs[k].0) && well_formed(pairs[k].1));
            }
        },
    }
    assert(flat_and_plain(e));
    lemma_flat_text_reads_back(e);
}

/// Reading, evaluating and printing what these three steps gave gives the
/// same text again, where the first expression of the text keeps its text.
pub proof fn law_rep_twice_is_rep(s: Seq<char>)
    requires
        first_exp(s) is Ok,
        keeps_its_text(first_exp(s)->Ok_0),
    ensures
        rep_text(s) is Ok,
        rep_text(rep_text(s)->Ok_0) == rep_text(s),
{
    law_rendered_text_reads_back(s);
}

} // verus!
