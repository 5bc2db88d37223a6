use regex::Regex;
use ruje::error::ReadError;
use ruje::reader::Reader;
use ruje::types::{RujeAtom, RujeExp};

/// What the three token patterns make of a text that starts with no quote:
/// the atom and the text left.
fn by_patterns(
    int_pattern: &Regex,
    float_pattern: &Regex,
    symbol_pattern: &Regex,
    input: &str,
) -> Result<(RujeExp, String), ReadError> {
    let text = input.trim_start();
    if text.is_empty() {
        return Err(ReadError::UnexpectedEof);
    }
    if let Some(m) = int_pattern.captures(text) {
        let s = m.get(1).unwrap().as_str();
        return match s.parse::<i64>() {
            Ok(value) => Ok((RujeAtom::Int(value).into(), text[s.len()..].to_string())),
            Err(_) => Err(ReadError::InvalidInput),
        };
    }
    if let Some(m) = float_pattern.captures(text) {
        let s = m.get(1).unwrap().as_str();
        return Ok((RujeAtom::Float(s.to_string()).into(), text[s.len()..].to_string()));
    }
    if let Some(m) = symbol_pattern.captures(text) {
        let s = m.get(0).unwrap().as_str();
        return Ok((RujeAtom::Symbol(s.to_string()).into(), text[s.len()..].to_string()));
    }
    Err(ReadError::InvalidInput)
}

fn check_all(alphabet: &[char], max_len: usize) {
    let int_pattern = Regex::new(r"^([+-]?[0-9]+)(?:[ ();\[\]{}]|$)").unwrap();
    let float_pattern = Regex::new(r"^([+-]?[0-9]*\.[0-9]+)(?:[ ();\[\]{}]|$)").unwrap();
    let symbol_pattern = Regex::new(r"^[^ ();]+").unwrap();
    let mut texts: Vec<String> = vec![String::new()];
    let mut start = 0;
    for _ in 0..max_len {
        let end = texts.len();
        for i in start..end {
            for c in alphabet {
                let mut next = texts[i].clone();
                next.push(*c);
                texts.push(next);
            }
        }
        start = end;
    }
    for text in &texts {
        if text.trim_start().starts_with('"') {
            continue;
        }
        let expected = by_patterns(&int_pattern, &float_pattern, &symbol_pattern, text);
        let mut reader = Reader::new(text);
        let got = reader.read_atom().map(|atom| (atom, reader.remaining()));
        assert_eq!(got, expected, "on {:?}", text);
    }
}

#[test]
fn atoms_are_what_the_token_patterns_match() {
    check_all(
        &['+', '-', '0', '7', '.', ' ', '(', ')', ';', '[', ']', '{', '}', 'a', '\n'],
        4,
    );
}

#[test]
fn atoms_are_what_the_token_patterns_match_beyond_ascii() {
    check_all(&['-', '1', '.', ' ', ';', '\t', '\u{a0}', '\u{e9}', '\u{661}', '\u{3000}', '#'], 4);
}

#[test]
fn long_digit_runs_are_what_the_token_patterns_match() {
    let int_pattern = Regex::new(r"^([+-]?[0-9]+)(?:[ ();\[\]{}]|$)").unwrap();
    let float_pattern = Regex::new(r"^([+-]?[0-9]*\.[0-9]+)(?:[ ();\[\]{}]|$)").unwrap();
    let symbol_pattern = Regex::new(r"^[^ ();]+").unwrap();
    for text in [
        "9223372036854775807",
        "9223372036854775808",
        "-9223372036854775808",
        "-9223372036854775809",
        "+9223372036854775807)",
        "18446744073709551616",
        "000000000000000000000000000000009",
        "-00000000000000000000009223372036854775808 x",
        "123456789012345678901234567890.5",
        "12345678901234567890a",
    ] {
        let expected = by_patterns(&int_pattern, &float_pattern, &symbol_pattern, text);
        let mut reader = Reader::new(text);
        let got = reader.read_atom().map(|atom| (atom, reader.remaining()));
        assert_eq!(got, expected, "on {:?}", text);
    }
}
