//! Read, evaluate, print: the three steps and their composition.

use vstd::prelude::*;
use crate::error::ReadError;
use crate::grammar::read_exp;
use crate::reader::Reader;
use crate::render::render;
use crate::types::exp::ExpView;
use crate::types::exp::RujeExp;

verus! {

/// The first expression of a text, without what follows it.
pub open spec fn first_exp(s: Seq<char>) -> Result<ExpView, ReadError> {
    match read_exp(s) {
        Ok((value, _)) => Ok(value),
        Err(e) => Err(e),
    }
}

/// The text that reading, evaluating and printing makes of a text.
pub open spec fn rep_text(s: Seq<char>) -> Result<Seq<char>, ReadError> {
    match first_exp(s) {
        Ok(value) => Ok(render(value)),
        Err(e) => Err(e),
    }
}

/// The value of a result that holds an expression.
pub open spec fn exp_result_view(r: Result<RujeExp, ReadError>) -> Result<ExpView, ReadError> {
    match r {
        Ok(e) => Ok(e@),
        Err(e) => Err(e),
    }
}

/// The value of a result that holds a text.
pub open spec fn text_result_view(r: Result<String, ReadError>) -> Result<Seq<char>, ReadError> {
    match r {
        Ok(s) => Ok(s@),
        Err(e) => Err(e),
    }
}

/// Reads the first expression of `input`; what follows it is not looked at.
pub fn read(input: &str) -> (r: Result<RujeExp, ReadError>)
    ensures
        exp_result_view(r) == first_exp(input@),
{
    let mut reader = Reader::new(input);
    reader.read()
}

/// Evaluates an expression: every expression evaluates to itself.
pub fn eval(input: RujeExp) -> (r: Result<RujeExp, ReadError>)
    ensures
        r == Ok::<RujeExp, ReadError>(input),
{
    Ok(input)
}

/// Prints an expression: its canonical text.
pub fn print(input: RujeExp) -> (r: Result<String, ReadError>)
    ensures
        text_result_view(r) == Ok::<Seq<char>, ReadError>(render(input@)),
{
    Ok(input.to_string())
}

/// Reads the first expression of `input`, evaluates it and prints the result.
pub fn rep(input: &str) -> (r: Result<String, ReadError>)
    ensures
        text_result_view(r) == rep_text(input@),
{
    match read(input) {
        Err(e) => Err(e),
        Ok(exp) => match eval(exp) {
            Err(e) => Err(e),
            Ok(value) => print(value),
        },
    }
}

} // verus!
