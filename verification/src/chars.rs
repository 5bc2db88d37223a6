//! Character classes of the notation.

use vstd::prelude::*;

verus! {

/// The characters that the reader skips between expressions: the code points
/// with the Unicode property `White_Space`.
pub open spec fn is_whitespace(c: char) -> bool {
    let n = c as u32;
    ||| 0x09 <= n <= 0x0D
    ||| n == 0x20
    ||| n == 0x85
    ||| n == 0xA0
    ||| n == 0x1680
    ||| 0x2000 <= n <= 0x200A
    ||| n == 0x2028
    ||| n == 0x2029
    ||| n == 0x202F
    ||| n == 0x205F
    ||| n == 0x3000
}

/// The characters that may follow a number: space, `(`, `)`, `;`, `[`, `]`, `{`, `}`.
pub open spec fn is_delimiter(c: char) -> bool {
    c == ' ' || c == '(' || c == ')' || c == ';' || c == '[' || c == ']' || c == '{' || c == '}'
}

/// The characters a symbol is made of: all but space, `(`, `)` and `;`.
pub open spec fn is_symbol_char(c: char) -> bool {
    !(c == ' ' || c == '(' || c == ')' || c == ';')
}

/// The decimal digits `0` to `9`.
pub open spec fn is_digit(c: char) -> bool {
    '0' <= c <= '9'
}

/// The number a decimal digit stands for.
pub open spec fn digit_value(c: char) -> nat
    recommends
        is_digit(c),
{
    (c as u32 - '0' as u32) as nat
}

/// The digit that stands for a number below ten.
pub open spec fn digit_char(d: nat) -> char
    recommends
        d < 10,
{
    (d + 48) as u8 as char
}

pub fn whitespace(c: char) -> (r: bool)
    ensures
        r == is_whitespace(c),
{
    let n: u32 = c as u32;
    (0x09 <= n && n <= 0x0D) || n == 0x20 || n == 0x85 || n == 0xA0 || n == 0x1680 || (0x2000 <= n
        && n <= 0x200A) || n == 0x2028 || n == 0x2029 || n == 0x202F || n == 0x205F || n == 0x3000
}

pub fn delimiter(c: char) -> (r: bool)
    ensures
        r == is_delimiter(c),
{
    c == ' ' || c == '(' || c == ')' || c == ';' || c == '[' || c == ']' || c == '{' || c == '}'
}

pub fn symbol_char(c: char) -> (r: bool)
    ensures
        r == is_symbol_char(c),
{
    !(c == ' ' || c == '(' || c == ')' || c == ';')
}

pub fn digit(c: char) -> (r: bool)
    ensures
        r == is_digit(c),
{
    '0' <= c && c <= '9'
}

} // verus!
