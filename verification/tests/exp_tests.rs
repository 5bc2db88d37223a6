use ruje::reader::Reader;
use ruje::steps::{eval, print, read, rep};
use ruje::error::ReadError;
use ruje::types::{RujeAtom, RujeExp};

#[test]
fn test_atom() {
    let atom = RujeAtom::new_symbol("test");
    assert_eq!(atom.to_string(), "test");
}

#[test]
fn test_exp() {
    let exp = RujeExp::Atom(RujeAtom::Symbol("test".to_string()));
    assert_eq!(exp.to_string(), "test");

    let exp = RujeExp::List(vec![
        RujeExp::Atom(RujeAtom::Symbol("test".to_string())),
        RujeExp::Atom(RujeAtom::Symbol("test".to_string())),
    ]);
    assert_eq!(exp.to_string(), "(test test)");

    let exp = RujeExp::Vector(vec![
        RujeExp::Atom(RujeAtom::Symbol("test".to_string())),
        RujeExp::Atom(RujeAtom::Symbol("test".to_string())),
    ]);
    assert_eq!(exp.to_string(), "[test test]");

    let exp = RujeExp::MapForm(vec![
        (
            RujeExp::Atom(RujeAtom::Symbol("test".to_string())),
            RujeExp::Atom(RujeAtom::Symbol("test".to_string())),
        ),
        (
            RujeExp::Atom(RujeAtom::Symbol("test".to_string())),
            RujeExp::Atom(RujeAtom::Symbol("test".to_string())),
        ),
    ]);
    assert_eq!(exp.to_string(), "{test test test test}");

    let exp = RujeExp::SetForm(vec![
        RujeExp::Atom(RujeAtom::Symbol("test".to_string())),
        RujeExp::Atom(RujeAtom::Symbol("test".to_string())),
    ]);
    assert_eq!(exp.to_string(), "#{test test}");
}

#[test]
fn atoms_render_in_their_own_form() {
    assert_eq!(RujeAtom::new_keyword("key").to_string(), ":key");
    assert_eq!(RujeAtom::new_keyword("key"), RujeAtom::Keyword("key".to_string()));
    assert_eq!(RujeAtom::Int(0).to_string(), "0");
    assert_eq!(RujeAtom::Int(7).to_string(), "7");
    assert_eq!(RujeAtom::Int(-42).to_string(), "-42");
    assert_eq!(RujeAtom::Int(1234567890).to_string(), "1234567890");
    assert_eq!(RujeAtom::Int(i64::MAX).to_string(), "9223372036854775807");
    assert_eq!(RujeAtom::Int(i64::MIN).to_string(), "-9223372036854775808");
    assert_eq!(RujeAtom::Float("1.50".to_string()).to_string(), "1.50");
    assert_eq!(RujeAtom::String("a b".to_string()).to_string(), "\"a b\"");
    assert_eq!(RujeAtom::String("a\"b\n".to_string()).to_string(), "\"a\"b\n\"");
    assert_eq!(RujeAtom::Character('x').to_string(), "'x'");
}

#[test]
fn empty_and_single_collections_render_without_spaces() {
    assert_eq!(RujeExp::List(vec![]).to_string(), "()");
    assert_eq!(RujeExp::Vector(vec![]).to_string(), "[]");
    assert_eq!(RujeExp::MapForm(vec![]).to_string(), "{}");
    assert_eq!(RujeExp::SetForm(vec![]).to_string(), "#{}");
    assert_eq!(RujeExp::List(vec![RujeAtom::Int(1).into()]).to_string(), "(1)");
    assert_eq!(
        RujeExp::MapForm(vec![(RujeAtom::Int(1).into(), RujeExp::List(vec![]))]).to_string(),
        "{1 ()}"
    );
}

#[test]
fn write_to_appends() {
    let mut out = String::from("> ");
    RujeExp::Vector(vec![RujeAtom::Int(-3).into(), RujeAtom::new_symbol("x").into()])
        .write_to(&mut out);
    assert_eq!(out, "> [-3 x]");
}

#[test]
fn from_atom_wraps_it() {
    let exp: RujeExp = RujeExp::from(RujeAtom::Int(5));
    assert_eq!(exp, RujeExp::Atom(RujeAtom::Int(5)));
}

#[test]
fn rendered_integers_read_back() {
    for n in [0i64, 1, -1, 9, 10, -10, 99, 100, 4096, -123456789, i64::MAX, i64::MIN] {
        let text = RujeAtom::Int(n).to_string();
        assert_eq!(text, format!("{}", n));
        assert_eq!(Reader::new(&text).read(), Ok(RujeAtom::Int(n).into()));
        let closed = format!("{})", text);
        let mut reader = Reader::new(&closed);
        assert_eq!(reader.read(), Ok(RujeAtom::Int(n).into()));
        assert_eq!(reader.remaining(), ")");
    }
}

#[test]
fn rendered_atoms_and_empty_collections_read_back() {
    for text in ["abc", "-12", "+3.5", "\"a b\"", "()", "[]", "{}", "#{}", "a]b", "\"x\ny\""] {
        let first = read(text).unwrap();
        let again = read(&first.to_string()).unwrap();
        assert_eq!(first, again);
    }
}

#[test]
fn steps_compose() {
    assert_eq!(read("(1 2) 3"), Ok(RujeExp::List(vec![RujeAtom::Int(1).into(), RujeAtom::Int(2).into()])));
    assert_eq!(read("]"), Err(ReadError::UnexpectedCloseDelimiter));
    assert_eq!(eval(RujeExp::List(vec![])), Ok(RujeExp::List(vec![])));
    assert_eq!(print(RujeExp::SetForm(vec![RujeAtom::Int(1).into()])), Ok("#{1}".to_string()));
    assert_eq!(rep("  ( +1   \"a\\tb\"  [x y ] {k 2.50} )"), Ok("(1 \"a\tb\" [x y] {k 2.50})".to_string()));
    assert_eq!(rep("\"abc"), Err(ReadError::UnterminatedString));
    assert_eq!(rep("#x"), Err(ReadError::UnknownReaderMacro));
}

#[test]
fn every_error_has_its_message() {
    assert_eq!(ReadError::UnexpectedEof.message(), "Unexpected end of input");
    assert_eq!(ReadError::UnexpectedCloseDelimiter.message(), "Unexpected closing delimiter");
    assert_eq!(ReadError::UnknownReaderMacro.message(), "Unknown reader macro char");
    assert_eq!(ReadError::InvalidEscapeSequence.message(), "Invalid escape sequence");
    assert_eq!(ReadError::UnterminatedString.message(), "Unterminated string literal");
    assert_eq!(ReadError::InvalidInput.message(), "Invalid input");
}

#[test]
fn rendered_flat_collections_read_back() {
    for text in [
        "(a b 1 -2 2.5 \"x y\")",
        "(a)",
        "[a 1]",
        "[\"s\"]",
        "#{a 1.5}",
        "{a 1 b 2}",
        "{1 \"v\"}",
    ] {
        let first = read(text).unwrap();
        assert_eq!(first.to_string(), text);
        assert_eq!(read(&first.to_string()), Ok(first));
    }
}

#[test]
fn vector_that_ends_in_a_symbol_does_not_read_back() {
    let first = read("[a ]").unwrap();
    assert_eq!(first.to_string(), "[a]");
    assert_eq!(read("[a]"), Err(ReadError::UnexpectedEof));
}

#[test]
fn string_with_a_quote_does_not_read_back() {
    let first = read("\"a\\\"b\"").unwrap();
    assert_eq!(first, RujeExp::Atom(RujeAtom::String("a\"b".to_string())));
    assert_eq!(first.to_string(), "\"a\"b\"");
    assert_eq!(read(&first.to_string()), Ok(RujeExp::Atom(RujeAtom::String("a".to_string()))));
}

#[test]
fn a_read_leaves_the_end_of_the_text() {
    let text = "  {a (1 2)} [x] tail";
    let mut reader = Reader::new(text);
    assert!(reader.read().is_ok());
    let rest = reader.remaining();
    assert!(text.ends_with(&rest));
    assert_eq!(rest, " [x] tail");
}

#[test]
fn float_literals_stand_for_their_value() {
    for f in [0.5f64, 1.5, -2.25, 123.456, 0.1, -0.0, 1.0, 3.141592653589793, 1234567.875] {
        let text = format!("{:?}", f);
        assert!(text.contains('.'));
        let exp = read(&text).unwrap();
        assert_eq!(exp, RujeExp::Atom(RujeAtom::Float(text.clone())));
        match exp {
            RujeExp::Atom(RujeAtom::Float(literal)) => {
                assert_eq!(literal.parse::<f64>(), Ok(f));
            }
            _ => unreachable!(),
        }
    }
}
