use ruje::error::ReadError;
use ruje::reader::Reader;
use ruje::types::{RujeAtom, RujeExp};

fn int_exp(n: i64) -> RujeExp {
    RujeAtom::Int(n).into()
}

fn symbol(name: &str) -> RujeExp {
    RujeAtom::Symbol(name.to_string()).into()
}

#[test]
fn test_read_atom() {
    let mut reader = Reader::new("123");
    let atom = reader.read_atom().unwrap();
    assert_eq!(atom, RujeAtom::Int(123).into());

    let mut reader = Reader::new("123.456");
    let atom = reader.read_atom().unwrap();
    assert_eq!(atom, RujeAtom::Float("123.456".to_string()).into());

    let mut reader = Reader::new("abc");
    let atom = reader.read_atom().unwrap();
    assert_eq!(atom, RujeAtom::Symbol("abc".to_string()).into());

    let mut reader = Reader::new("\"abc\"");
    let atom = reader.read_atom().unwrap();
    assert_eq!(atom, RujeAtom::String("abc".to_string()).into());

    let mut reader = Reader::new("\"ab c\"");
    let atom = reader.read_atom().unwrap();
    assert_eq!(atom, RujeAtom::String("ab c".to_string()).into());

    let mut reader = Reader::new("\"ab\\nc\"");
    let atom = reader.read_atom().unwrap();
    assert_eq!(atom, RujeAtom::String("ab\nc".to_string()).into());
}

#[test]
fn test_read_list() {
    let mut reader = Reader::new("()");
    let res = reader.read().unwrap();
    assert_eq!(res, RujeExp::List(vec![]));

    let mut reader = Reader::new("(123 456)");
    let res = reader.read().unwrap();
    assert_eq!(
        res,
        RujeExp::List(vec![RujeAtom::Int(123).into(), RujeAtom::Int(456).into()])
    );

    let mut reader = Reader::new("(123 (456 789))");
    let res = reader.read().unwrap();
    assert_eq!(
        res,
        RujeExp::List(vec![
            RujeAtom::Int(123).into(),
            RujeExp::List(vec![RujeAtom::Int(456).into(), RujeAtom::Int(789).into()])
        ])
    );

    let mut reader = Reader::new("(123 (456 789) 100)");
    let res = reader.read().unwrap();
    assert_eq!(
        res,
        RujeExp::List(vec![
            RujeAtom::Int(123).into(),
            RujeExp::List(vec![RujeAtom::Int(456).into(), RujeAtom::Int(789).into()]),
            RujeAtom::Int(100).into()
        ])
    );
}

#[test]
fn test_read_vector() {
    let mut reader = Reader::new("[]");
    let res = reader.read().unwrap();
    assert_eq!(res, RujeExp::Vector(vec![]));

    let mut reader = Reader::new("[123 456]");
    let res = reader.read().unwrap();
    assert_eq!(
        res,
        RujeExp::Vector(vec![RujeAtom::Int(123).into(), RujeAtom::Int(456).into()])
    );
}

#[test]
fn test_read_map() {
    let mut reader = Reader::new("{}");
    let res = reader.read().unwrap();
    assert_eq!(res, RujeExp::MapForm(vec![]));

    let mut reader = Reader::new("{a 123}");
    let res = reader.read().unwrap();
    assert_eq!(
        res,
        RujeExp::MapForm(vec![(
            RujeAtom::Symbol("a".to_string()).into(),
            RujeAtom::Int(123).into()
        )])
    )
}

#[test]
fn test_read_set() {
    let mut reader = Reader::new("#{}");
    let res = reader.read().unwrap();
    assert_eq!(res, RujeExp::SetForm(vec![]));

    let mut reader = Reader::new("#{a 123}");
    let res = reader.read().unwrap();
    assert_eq!(
        res,
        RujeExp::SetForm(vec![
            RujeAtom::Symbol("a".to_string()).into(),
            RujeAtom::Int(123).into(),
        ])
    )
}

#[test]
fn integers_at_the_limits() {
    assert_eq!(Reader::new("9223372036854775807").read(), Ok(int_exp(i64::MAX)));
    assert_eq!(Reader::new("-9223372036854775808").read(), Ok(int_exp(i64::MIN)));
    assert_eq!(Reader::new("+17").read(), Ok(int_exp(17)));
    assert_eq!(Reader::new("-0").read(), Ok(int_exp(0)));
    assert_eq!(Reader::new("0000000000000000000000042").read(), Ok(int_exp(42)));
}

#[test]
fn integer_too_large_is_invalid_input() {
    assert_eq!(Reader::new("9223372036854775808").read(), Err(ReadError::InvalidInput));
    assert_eq!(Reader::new("-9223372036854775809").read(), Err(ReadError::InvalidInput));
    assert_eq!(
        Reader::new("99999999999999999999999999999999").read(),
        Err(ReadError::InvalidInput)
    );
}

#[test]
fn integer_before_a_delimiter_leaves_the_delimiter() {
    let mut reader = Reader::new("-45)");
    assert_eq!(reader.read(), Ok(int_exp(-45)));
    assert_eq!(reader.remaining(), ")");
    for tail in [" ", "(", ")", ";", "[", "]", "{", "}"] {
        let text = format!("7{}", tail);
        let mut reader = Reader::new(&text);
        assert_eq!(reader.read(), Ok(int_exp(7)));
        assert_eq!(reader.remaining(), tail);
    }
}

#[test]
fn digits_without_delimiter_are_a_symbol() {
    assert_eq!(Reader::new("123abc").read(), Ok(symbol("123abc")));
    assert_eq!(Reader::new("123\n").read(), Ok(symbol("123\n")));
    assert_eq!(Reader::new("1.2.3").read(), Ok(symbol("1.2.3")));
    assert_eq!(Reader::new("+").read(), Ok(symbol("+")));
    assert_eq!(Reader::new("1.").read(), Ok(symbol("1.")));
}

#[test]
fn floats_keep_their_literal() {
    let float = |text: &str| -> RujeExp { RujeAtom::Float(text.to_string()).into() };
    assert_eq!(Reader::new("1.5").read(), Ok(float("1.5")));
    assert_eq!(Reader::new("-.5").read(), Ok(float("-.5")));
    assert_eq!(Reader::new("+10.25").read(), Ok(float("+10.25")));
    let mut reader = Reader::new("3.25]");
    assert_eq!(reader.read(), Ok(float("3.25")));
    assert_eq!(reader.remaining(), "]");
}

#[test]
fn symbols_run_to_space_paren_or_semicolon() {
    let mut reader = Reader::new("ab]c{d e");
    assert_eq!(reader.read(), Ok(symbol("ab]c{d")));
    assert_eq!(reader.remaining(), " e");
    let mut reader = Reader::new("foo(bar");
    assert_eq!(reader.read(), Ok(symbol("foo")));
    assert_eq!(reader.remaining(), "(bar");
    let mut reader = Reader::new("x;y");
    assert_eq!(reader.read(), Ok(symbol("x")));
    assert_eq!(reader.remaining(), ";y");
}

#[test]
fn semicolon_is_invalid_input() {
    assert_eq!(Reader::new(";").read(), Err(ReadError::InvalidInput));
    assert_eq!(Reader::new("  ;abc").read(), Err(ReadError::InvalidInput));
    assert_eq!(Reader::new("(").read_atom(), Err(ReadError::InvalidInput));
}

#[test]
fn empty_collections() {
    assert_eq!(Reader::new("()").read(), Ok(RujeExp::List(vec![])));
    assert_eq!(Reader::new("[]").read(), Ok(RujeExp::Vector(vec![])));
    assert_eq!(Reader::new("{}").read(), Ok(RujeExp::MapForm(vec![])));
    assert_eq!(Reader::new("#{}").read(), Ok(RujeExp::SetForm(vec![])));
}

#[test]
fn space_inside_empty_brackets_is_an_unexpected_closer() {
    assert_eq!(Reader::new("( )").read(), Err(ReadError::UnexpectedCloseDelimiter));
    assert_eq!(Reader::new("[ ]").read(), Err(ReadError::UnexpectedCloseDelimiter));
}

#[test]
fn adjacent_closer_ends_a_number() {
    assert_eq!(Reader::new("(12)").read(), Ok(RujeExp::List(vec![int_exp(12)])));
    assert_eq!(
        Reader::new("[1 [2] 3 ]").read(),
        Ok(RujeExp::Vector(vec![int_exp(1), RujeExp::Vector(vec![int_exp(2)]), int_exp(3)]))
    );
}

#[test]
fn map_pairs_keep_order_and_duplicates() {
    assert_eq!(
        Reader::new("{a 1 a 2}").read(),
        Ok(RujeExp::MapForm(vec![(symbol("a"), int_exp(1)), (symbol("a"), int_exp(2))]))
    );
    assert_eq!(
        Reader::new("#{1 1}").read(),
        Ok(RujeExp::SetForm(vec![int_exp(1), int_exp(1)]))
    );
}

#[test]
fn map_without_a_value_fails() {
    assert_eq!(Reader::new("{a}").read(), Err(ReadError::UnexpectedEof));
    assert_eq!(Reader::new("{a 1 b").read(), Err(ReadError::UnexpectedEof));
    assert_eq!(Reader::new("{1 2 3}").read(), Err(ReadError::UnexpectedCloseDelimiter));
}

#[test]
fn string_escapes() {
    let string = |text: &str| -> RujeExp { RujeAtom::String(text.to_string()).into() };
    assert_eq!(Reader::new("\"ab\\nc\"").read(), Ok(string("ab\nc")));
    assert_eq!(
        Reader::new("\"\\t\\r\\\"\\\\\"").read(),
        Ok(string("\t\r\"\\"))
    );
    assert_eq!(Reader::new("\"\"").read(), Ok(string("")));
    assert_eq!(Reader::new("\"h\u{e9}\u{4e16}\" x").read(), Ok(string("h\u{e9}\u{4e16}")));
    assert_eq!(Reader::new("\"a\\qb\"").read(), Err(ReadError::InvalidEscapeSequence));
    assert_eq!(Reader::new("\"a\\").read(), Err(ReadError::UnexpectedEof));
}

#[test]
fn unterminated_inputs() {
    assert_eq!(Reader::new("(").read(), Err(ReadError::UnexpectedEof));
    assert_eq!(Reader::new("(1 2").read(), Err(ReadError::UnexpectedEof));
    assert_eq!(Reader::new("\"abc").read(), Err(ReadError::UnterminatedString));
    assert_eq!(Reader::new("#").read(), Err(ReadError::UnexpectedEof));
    assert_eq!(Reader::new("#{").read(), Err(ReadError::UnexpectedEof));
    assert_eq!(Reader::new("").read(), Err(ReadError::UnexpectedEof));
    assert_eq!(Reader::new("   ").read(), Err(ReadError::UnexpectedEof));
}

#[test]
fn unknown_reader_macro() {
    assert_eq!(Reader::new("#a").read(), Err(ReadError::UnknownReaderMacro));
    assert_eq!(Reader::new("#(").read(), Err(ReadError::UnknownReaderMacro));
}

#[test]
fn stray_closers() {
    assert_eq!(Reader::new(")").read(), Err(ReadError::UnexpectedCloseDelimiter));
    assert_eq!(Reader::new(" ]").read(), Err(ReadError::UnexpectedCloseDelimiter));
    assert_eq!(Reader::new("}").read(), Err(ReadError::UnexpectedCloseDelimiter));
    assert_eq!(Reader::new("[1 2)").read(), Err(ReadError::UnexpectedCloseDelimiter));
}

#[test]
fn second_read_continues_behind_the_first() {
    let mut reader = Reader::new("123 456");
    assert_eq!(reader.read(), Ok(int_exp(123)));
    assert_eq!(reader.remaining(), " 456");
    assert_eq!(reader.read(), Ok(int_exp(456)));
    assert_eq!(reader.remaining(), "");
    assert_eq!(reader.read(), Err(ReadError::UnexpectedEof));
}

#[test]
fn whitespace_of_every_kind_is_skipped() {
    assert_eq!(Reader::new("\t\n\r 12").read(), Ok(int_exp(12)));
    assert_eq!(Reader::new("\u{a0}\u{2003}\u{3000}12").read(), Ok(int_exp(12)));
    let mut reader = Reader::new(" \u{85} x  ");
    reader.skip_whitespace();
    assert_eq!(reader.remaining(), "x  ");
    assert_eq!(reader.peek(), Some('x'));
}

#[test]
fn number_shapes_at_their_edges() {
    let float = |text: &str| -> RujeExp { RujeAtom::Float(text.to_string()).into() };
    assert_eq!(Reader::new(".5").read(), Ok(float(".5")));
    assert_eq!(Reader::new("+.5 ").read(), Ok(float("+.5")));
    assert_eq!(Reader::new("5.").read(), Ok(symbol("5.")));
    assert_eq!(Reader::new(".").read(), Ok(symbol(".")));
    assert_eq!(Reader::new("-").read(), Ok(symbol("-")));
    assert_eq!(Reader::new("--5").read(), Ok(symbol("--5")));
    assert_eq!(Reader::new("+-5").read(), Ok(symbol("+-5")));
    assert_eq!(Reader::new("1e5").read(), Ok(symbol("1e5")));
    assert_eq!(Reader::new("1.5e3").read(), Ok(symbol("1.5e3")));
    assert_eq!(Reader::new("1_000").read(), Ok(symbol("1_000")));
    assert_eq!(Reader::new("12,").read(), Ok(symbol("12,")));
    assert_eq!(Reader::new("12\t").read(), Ok(symbol("12\t")));
    assert_eq!(Reader::new("\u{661}\u{662}").read(), Ok(symbol("\u{661}\u{662}")));
    let mut reader = Reader::new("12;rest");
    assert_eq!(reader.read(), Ok(int_exp(12)));
    assert_eq!(reader.remaining(), ";rest");
    let mut reader = Reader::new("1.5{");
    assert_eq!(reader.read(), Ok(float("1.5")));
    assert_eq!(reader.remaining(), "{");
}

#[test]
fn read_atom_takes_brackets_into_symbols() {
    let mut reader = Reader::new("  [a] b");
    assert_eq!(reader.read_atom(), Ok(symbol("[a]")));
    assert_eq!(reader.remaining(), " b");
    assert_eq!(Reader::new("").read_atom(), Err(ReadError::UnexpectedEof));
    assert_eq!(Reader::new("\"a").read_atom(), Err(ReadError::UnterminatedString));
}

#[test]
fn symbol_before_bracket_or_brace_takes_it_in() {
    assert_eq!(Reader::new("[a]").read(), Err(ReadError::UnexpectedEof));
    assert_eq!(Reader::new("#{a}").read(), Err(ReadError::UnexpectedEof));
    assert_eq!(
        Reader::new("[a ]").read(),
        Ok(RujeExp::Vector(vec![symbol("a")]))
    );
    assert_eq!(Reader::new("(a)").read(), Ok(RujeExp::List(vec![symbol("a")])));
}
