//! Atoms: the leaves of an expression tree.

use vstd::prelude::*;
use vstd::string::StringExecFns;
use crate::chars::digit_char;
use crate::render::{decimal_digits, render_atom};

verus! {

/// A leaf value.
///
/// A float is kept as the decimal literal it was written as; turning that
/// text into a machine number is left to the caller.
#[derive(Debug, PartialEq)]
pub enum RujeAtom {
    Symbol(String),
    Keyword(String),
    Int(i64),
    Float(String),
    String(String),
    Character(char),
}

/// The mathematical value of an atom.
pub ghost enum AtomView {
    Symbol(Seq<char>),
    Keyword(Seq<char>),
    Int(int),
    Float(Seq<char>),
    String(Seq<char>),
    Character(char),
}

impl View for RujeAtom {
    type V = AtomView;

    open spec fn view(&self) -> AtomView {
        match self {
            RujeAtom::Symbol(s) => AtomView::Symbol(s@),
            RujeAtom::Keyword(s) => AtomView::Keyword(s@),
            RujeAtom::Int(n) => AtomView::Int(*n as int),
            RujeAtom::Float(s) => AtomView::Float(s@),
            RujeAtom::String(s) => AtomView::String(s@),
            RujeAtom::Character(c) => AtomView::Character(*c),
        }
    }
}

/// Appends the decimal digits of `n` to `out`.
pub fn write_decimal(n: u64, out: &mut String)
    ensures
        final(out)@ == old(out)@ + decimal_digits(n as nat),
    decreases n,
{
    if n >= 10 {
        write_decimal(n / 10, out);
    }
    let d: u8 = (n % 10) as u8;
    let c: char = (d + 48u8) as char;
    assert(c == digit_char((n % 10) as nat));
    out.push(c);
    if n >= 10 {
        assert(out@ =~= old(out)@ + decimal_digits((n / 10) as nat).push(c));
    } else {
        assert(out@ =~= old(out)@ + seq![c]);
    }
}

impl RujeAtom {
    /// The symbol with the given name.
    pub fn new_symbol(value: &str) -> (a: RujeAtom)
        ensures
            a@ == AtomView::Symbol(value@),
    {
        RujeAtom::Symbol(value.to_owned())
    }

    /// The keyword with the given name.
    pub fn new_keyword(value: &str) -> (a: RujeAtom)
        ensures
            a@ == AtomView::Keyword(value@),
    {
        RujeAtom::Keyword(value.to_owned())
    }

    /// Appends the atom's text to `out`.
    pub fn write_to(&self, out: &mut String)
        ensures
            final(out)@ == old(out)@ + render_atom(self@),
    {
        match self {
            RujeAtom::Symbol(s) => {
                out.append(s.as_str());
            },
            RujeAtom::Keyword(s) => {
                out.push(':');
                out.append(s.as_str());
                assert(out@ =~= old(out)@ + (seq![':'] + s@));
            },
            RujeAtom::Int(v) => {
                if *v < 0 {
                    out.push('-');
                    let magnitude: u64 = if *v == i64::MIN {
                        0x8000_0000_0000_0000
                    } else {
                        (-*v) as u64
                    };
                    write_decimal(magnitude, out);
                    assert(out@ =~= old(out)@ + (seq!['-'] + decimal_digits((-*v) as nat)));
                } else {
                    write_decimal(*v as u64, out);
                }
            },
            RujeAtom::Float(s) => {
                out.append(s.as_str());
            },
            RujeAtom::String(s) => {
                out.push('"');
                out.append(s.as_str());
                out.push('"');
                assert(out@ =~= old(out)@ + (seq!['"'] + s@ + seq!['"']));
            },
            RujeAtom::Character(c) => {
                out.push('\'');
                out.push(*c);
                out.push('\'');
                assert(out@ =~= old(out)@ + seq!['\'', *c, '\'']);
            },
        }
    }

    /// The atom's text.
    pub fn to_string(&self) -> (s: String)
        ensures
            s@ == render_atom(self@),
    {
        let mut out = String::new();
        self.write_to(&mut out);
        assert(out@ =~= render_atom(self@));
        out
    }
}

} // verus!
