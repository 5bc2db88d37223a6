//! Expressions: atoms and the four collections.

use vstd::prelude::*;
use crate::render::{render, render_items, render_pairs};
use crate::types::atom::AtomView;
use crate::types::atom::RujeAtom;

verus! {

/// One parsed unit of the notation.
#[derive(Debug, PartialEq)]
pub enum RujeExp {
    Atom(RujeAtom),
    List(Vec<RujeExp>),
    Vector(Vec<RujeExp>),
    MapForm(Vec<(RujeExp, RujeExp)>),
    SetForm(Vec<RujeExp>),
}

/// The mathematical value of an expression.
pub ghost enum ExpView {
    Atom(AtomView),
    List(Seq<ExpView>),
    Vector(Seq<ExpView>),
    MapForm(Seq<(ExpView, ExpView)>),
    SetForm(Seq<ExpView>),
}

impl View for RujeExp {
    type V = ExpView;

    open spec fn view(&self) -> ExpView
        decreases self, 0int,
    {
        match self {
            RujeExp::Atom(a) => ExpView::Atom(a@),
            RujeExp::List(v) => ExpView::List(items_view(v@)),
            RujeExp::Vector(v) => ExpView::Vector(items_view(v@)),
            RujeExp::MapForm(v) => ExpView::MapForm(pairs_view(v@)),
            RujeExp::SetForm(v) => ExpView::SetForm(items_view(v@)),
        }
    }
}

/// The values of a run of expressions.
pub open spec fn items_view(v: Seq<RujeExp>) -> Seq<ExpView>
    decreases v, 1int,
{
    Seq::new(
        v.len(),
        |i: int|
            if 0 <= i < v.len() {
                v[i]@
            } else {
                arbitrary()
            },
    )
}

/// The values of a run of pairs of expressions.
pub open spec fn pairs_view(v: Seq<(RujeExp, RujeExp)>) -> Seq<(ExpView, ExpView)>
    decreases v, 1int,
{
    Seq::new(
        v.len(),
        |i: int|
            if 0 <= i < v.len() {
                (v[i].0@, v[i].1@)
            } else {
                arbitrary()
            },
    )
}

/// Appends the texts of `items`, one space between them, to `out`.
fn write_items(items: &Vec<RujeExp>, out: &mut String)
    ensures
        final(out)@ == old(out)@ + render_items(items_view(items@)),
    decreases items, 1int,
{
    let ghost views = items_view(items@);
    let mut i: usize = 0;
    assert(views.subrange(0, 0) =~= Seq::empty());
    assert(out@ =~= old(out)@ + Seq::<char>::empty());
    while i < items.len()
        invariant
            i <= items.len(),
            views == items_view(items@),
            out@ == old(out)@ + render_items(views.subrange(0, i as int)),
        decreases items.len() - i,
    {
        let ghost so_far = out@;
        if i > 0 {
            out.push(' ');
        }
        items[i].write_to(out);
        proof {
            let next = views.subrange(0, i + 1);
            assert(next.drop_last() =~= views.subrange(0, i as int));
            assert(next.last() == items[i as int]@);
            if i > 0 {
                assert(out@ =~= old(out)@ + (render_items(views.subrange(0, i as int)) + seq![' ']
                    + render(items[i as int]@)));
            } else {
                assert(next[0] == items[i as int]@);
                assert(out@ =~= old(out)@ + render(items[i as int]@));
            }
        }
        i = i + 1;
    }
    assert(views.subrange(0, i as int) =~= views);
}

/// Appends the texts of the keys and values of `pairs` in turn, one space
/// between them, to `out`.
fn write_pairs(pairs: &Vec<(RujeExp, RujeExp)>, out: &mut String)
    ensures
        final(out)@ == old(out)@ + render_pairs(pairs_view(pairs@)),
    decreases pairs, 1int,
{
    let ghost views = pairs_view(pairs@);
    let mut i: usize = 0;
    assert(views.subrange(0, 0) =~= Seq::empty());
    assert(out@ =~= old(out)@ + Seq::<char>::empty());
    while i < pairs.len()
        invariant
            i <= pairs.len(),
            views == pairs_view(pairs@),
            out@ == old(out)@ + render_pairs(views.subrange(0, i as int)),
        decreases pairs.len() - i,
    {
        if i > 0 {
            out.push(' ');
        }
        pairs[i].0.write_to(out);
        out.push(' ');
        pairs[i].1.write_to(out);
        proof {
            let next = views.subrange(0, i + 1);
            let key = pairs[i as int].0@;
            let value = pairs[i as int].1@;
            assert(next.drop_last() =~= views.subrange(0, i as int));
            assert(next.last() == (key, value));
            if i > 0 {
                assert(out@ =~= old(out)@ + (render_pairs(views.subrange(0, i as int)) + seq![' ']
                    + render(key) + seq![' '] + render(value)));
            } else {
                assert(next[0] == (key, value));
                assert(out@ =~= old(out)@ + (render(key) + seq![' '] + render(value)));
            }
        }
        i = i + 1;
    }
    assert(views.subrange(0, i as int) =~= views);
}

impl RujeExp {
    /// Appends the expression's text to `out`.
    pub fn write_to(&self, out: &mut String)
        ensures
            final(out)@ == old(out)@ + render(self@),
        decreases self, 0int,
    {
        match self {
            RujeExp::Atom(a) => {
                a.write_to(out);
            },
            RujeExp::List(items) => {
                out.push('(');
                write_items(items, out);
                out.push(')');
                assert(out@ =~= old(out)@ + (seq!['('] + render_items(items_view(items@)) + seq![
                    ')',
                ]));
            },
            RujeExp::Vector(items) => {
                out.push('[');
                write_items(items, out);
                out.push(']');
                assert(out@ =~= old(out)@ + (seq!['['] + render_items(items_view(items@)) + seq![
                    ']',
                ]));
            },
            RujeExp::MapForm(pairs) => {
                out.push('{');
                write_pairs(pairs, out);
                out.push('}');
                assert(out@ =~= old(out)@ + (seq!['{'] + render_pairs(pairs_view(pairs@)) + seq![
                    '}',
                ]));
            },
            RujeExp::SetForm(items) => {
                out.push('#');
                out.push('{');
                write_items(items, out);
                out.push('}');
                assert(out@ =~= old(out)@ + (seq!['#', '{'] + render_items(items_view(items@))
                    + seq!['}']));
            },
        }
    }

    /// The expression's text.
    pub fn to_string(&self) -> (s: String)
        ensures
            s@ == render(self@),
    {
        let mut out = String::new();
        self.write_to(&mut out);
        assert(out@ =~= render(self@));
        out
    }
}

impl From<RujeAtom> for RujeExp {
    fn from(value: RujeAtom) -> (e: RujeExp) {
        RujeExp::Atom(value)
    }
}

impl vstd::std_specs::convert::FromSpecImpl<RujeAtom> for RujeExp {
    open spec fn obeys_from_spec() -> bool {
        true
    }

    open spec fn from_spec(value: RujeAtom) -> RujeExp {
        RujeExp::Atom(value)
    }
}

} // verus!
