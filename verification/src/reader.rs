//! The reader: a cursor over a text, from which expressions are read one by one.

use vstd::prelude::*;
use crate::chars;
use crate::error::ReadError;
use crate::grammar;
use crate::types::atom::RujeAtom;
use crate::types::exp::{items_view, pairs_view, ExpView};
use crate::types::exp::RujeExp;

verus! {

/// A text and a position in it. What lies before the position has been read.
pub struct Reader {
    chars: Vec<char>,
    pos: usize,
}

impl View for Reader {
    type V = Seq<char>;

    /// The text that is still unread.
    closed spec fn view(&self) -> Seq<char> {
        self.chars@.subrange(self.pos as int, self.chars.len() as int)
    }
}

impl Reader {
    /// The position lies within the text.
    #[verifier::type_invariant]
    spec fn in_bounds(self) -> bool {
        self.pos <= self.chars.len()
    }

    /// A reader at the start of `input`.
    pub fn new(input: &str) -> (r: Reader)
        ensures
            r@ == input@,
    {
        let mut chars: Vec<char> = Vec::new();
        for c in it: input.chars()
            invariant
                chars@ == it.seq().take(it.index() as int),
                it.seq() == input@,
        {
            chars.push(c);
        }
        assert(chars@ =~= input@);
        let r = Reader { chars, pos: 0 };
        assert(r@ =~= input@);
        r
    }

    /// The text that is still unread.
    pub fn remaining(&self) -> (text: String)
        ensures
            text@ == self@,
    {
        proof {
            use_type_invariant(self);
        }
        let mut text = String::new();
        let mut k: usize = 0;
        loop
            invariant
                k <= self@.len() <= usize::MAX,
                text@ == self@.subrange(0, k as int),
            ensures
                k == self@.len(),
                text@ == self@.subrange(0, k as int),
            decreases self@.len() - k,
        {
            match self.peek_at(k) {
                Some(c) => {
                    text.push(c);
                    assert(self@.subrange(0, k as int).push(c) =~= self@.subrange(0, k + 1));
                    k = k + 1;
                },
                None => {
                    break ;
                },
            }
        }
        assert(self@.subrange(0, k as int) =~= self@);
        text
    }

    /// The next unread character, if there is one.
    pub fn peek(&self) -> (c: Option<char>)
        ensures
            c == (if self@.len() > 0 {
                Some(self@[0])
            } else {
                None
            }),
    {
        proof {
            use_type_invariant(self);
        }
        if self.pos < self.chars.len() {
            Some(self.chars[self.pos])
        } else {
            None
        }
    }

    /// The unread character `k` places ahead, if there is one.
    fn peek_at(&self, k: usize) -> (c: Option<char>)
        ensures
            c == (if k < self@.len() {
                Some(self@[k as int])
            } else {
                None
            }),
    {
        proof {
            use_type_invariant(self);
        }
        if k < self.chars.len() - self.pos {
            Some(self.chars[self.pos + k])
        } else {
            None
        }
    }

    /// Moves the cursor over the next `n` characters.
    fn advance(&mut self, n: usize)
        requires
            n <= old(self)@.len(),
        ensures
            final(self)@ == old(self)@.subrange(n as int, old(self)@.len() as int),
    {
        proof {
            use_type_invariant(&*self);
        }
        self.pos = self.pos + n;
        assert(self@ =~= old(self)@.subrange(n as int, old(self)@.len() as int));
    }

    /// Moves the cursor to the next character that is no whitespace.
    pub fn skip_whitespace(&mut self)
        ensures
            final(self)@ == grammar::skip_whitespace(old(self)@),
    {
        loop
            invariant
                grammar::skip_whitespace(self@) == grammar::skip_whitespace(old(self)@),
            ensures
                self@ == grammar::skip_whitespace(old(self)@),
            decreases self@.len(),
        {
            match self.peek() {
                Some(c) => {
                    if chars::whitespace(c) {
                        assert(self@.drop_first() == self@.subrange(1, self@.len() as int));
                        self.advance(1);
                    } else {
                        break ;
                    }
                },
                None => {
                    break ;
                },
            }
        }
    }

    /// Takes the next `n` characters as a string.
    fn take_text(&mut self, n: usize) -> (text: String)
        requires
            n <= old(self)@.len(),
        ensures
            text@ == old(self)@.subrange(0, n as int),
            final(self)@ == old(self)@.subrange(n as int, old(self)@.len() as int),
    {
        let mut text = String::new();
        let mut k: usize = 0;
        while k < n
            invariant
                k <= n <= self@.len(),
                self@ == old(self)@,
                text@ == self@.subrange(0, k as int),
            decreases n - k,
        {
            match self.peek_at(k) {
                Some(c) => {
                    text.push(c);
                    assert(self@.subrange(0, k as int).push(c) =~= self@.subrange(0, k + 1));
                },
                None => {},
            }
            k = k + 1;
        }
        self.advance(n);
        text
    }

    /// The end of the run of digits that starts `i` places ahead.
    fn digits_end(&self, i: usize) -> (j: usize)
        requires
            i <= self@.len(),
        ensures
            j == grammar::digits_end(self@, i as int),
            i <= j <= self@.len(),
    {
        proof {
            use_type_invariant(self);
        }
        let mut j: usize = i;
        loop
            invariant
                i <= j <= self@.len() <= usize::MAX,
                grammar::digits_end(self@, j as int) == grammar::digits_end(self@, i as int),
            ensures
                i <= j <= self@.len(),
                j == grammar::digits_end(self@, i as int),
            decreases self@.len() - j,
        {
            match self.peek_at(j) {
                Some(c) => {
                    if chars::digit(c) {
                        j = j + 1;
                    } else {
                        break ;
                    }
                },
                None => {
                    break ;
                },
            }
        }
        j
    }

    /// The end of the run of symbol characters that starts `i` places ahead.
    fn symbol_end(&self, i: usize) -> (j: usize)
        requires
            i <= self@.len(),
        ensures
            j == grammar::symbol_end(self@, i as int),
            i <= j <= self@.len(),
    {
        proof {
            use_type_invariant(self);
        }
        let mut j: usize = i;
        loop
            invariant
                i <= j <= self@.len() <= usize::MAX,
                grammar::symbol_end(self@, j as int) == grammar::symbol_end(self@, i as int),
            ensures
                i <= j <= self@.len(),
                j == grammar::symbol_end(self@, i as int),
            decreases self@.len() - j,
        {
            match self.peek_at(j) {
                Some(c) => {
                    if chars::symbol_char(c) {
                        j = j + 1;
                    } else {
                        break ;
                    }
                },
                None => {
                    break ;
                },
            }
        }
        j
    }

    /// Whether a number may end `i` places ahead.
    fn ends_number(&self, i: usize) -> (r: bool)
        ensures
            r == grammar::ends_number(self@, i as int),
    {
        match self.peek_at(i) {
            Some(c) => chars::delimiter(c),
            None => true,
        }
    }

    /// Reads a string literal. The cursor stands at its opening quote.
    fn read_string(&mut self) -> (r: Result<RujeExp, ReadError>)
        requires
            old(self)@.len() > 0,
        ensures
            outcome(r, final(self)@) == grammar::read_string(old(self)@),
            r is Ok ==> final(self)@.len() < old(self)@.len(),
    {
        let mut s = String::new();
        self.advance(1);
        assert(self@ == old(self)@.drop_first());
        loop
            invariant
                self@.len() < old(self)@.len(),
                grammar::read_string_body(self@, s@) == grammar::read_string_body(
                    old(self)@.drop_first(),
                    Seq::empty(),
                ),
            decreases self@.len(),
        {
            match self.peek() {
                None => {
                    return Err(ReadError::UnterminatedString);
                },
                Some(c) => {
                    if c == '"' {
                        assert(self@.drop_first() == self@.subrange(1, self@.len() as int));
                        self.advance(1);
                        return Ok(RujeExp::Atom(RujeAtom::String(s)));
                    }
                    if c == '\\' {
                        match self.peek_at(1) {
                            None => {
                                return Err(ReadError::UnexpectedEof);
                            },
                            Some(next) => {
                                if next == 'n' {
                                    s.push('\n');
                                } else if next == 't' {
                                    s.push('\t');
                                } else if next == 'r' {
                                    s.push('\r');
                                } else if next == '"' {
                                    s.push('"');
                                } else if next == '\\' {
                                    s.push('\\');
                                } else {
                                    return Err(ReadError::InvalidEscapeSequence);
                                }
                                self.advance(2);
                            },
                        }
                    } else {
                        s.push(c);
                        assert(self@.drop_first() == self@.subrange(1, self@.len() as int));
                        self.advance(1);
                    }
                },
            }
        }
    }

    /// The number that the digits from `a` to `b` places ahead stand for,
    /// unless it is above 2^63.
    fn decimal_magnitude(&self, a: usize, b: usize) -> (m: Option<u64>)
        requires
            a <= b <= self@.len(),
            forall|k: int| a <= k < b ==> chars::is_digit(#[trigger] self@[k]),
        ensures
            match m {
                Some(v) => v == grammar::decimal_value(self@.subrange(a as int, b as int)) && v
                    <= 0x8000_0000_0000_0000,
                None => grammar::decimal_value(self@.subrange(a as int, b as int))
                    > 0x8000_0000_0000_0000,
            },
    {
        let mut acc: u64 = 0;
        let mut over = false;
        let mut j: usize = a;
        while j < b
            invariant
                a <= j <= b <= self@.len(),
                forall|k: int| a <= k < b ==> chars::is_digit(#[trigger] self@[k]),
                !over ==> acc == grammar::decimal_value(self@.subrange(a as int, j as int)) && acc
                    <= 0x8000_0000_0000_0000,
                over ==> grammar::decimal_value(self@.subrange(a as int, j as int))
                    > 0x8000_0000_0000_0000,
            decreases b - j,
        {
            let c = match self.peek_at(j) {
                Some(c) => c,
                None => '0',
            };
            assert(chars::is_digit(self@[j as int]));
            let d: u64 = (c as u32 - '0' as u32) as u64;
            proof {
                let next = self@.subrange(a as int, j + 1);
                assert(next.drop_last() =~= self@.subrange(a as int, j as int));
                assert(next.last() == c);
            }
            if !over {
                if acc > (0x8000_0000_0000_0000u64 - d) / 10 {
                    over = true;
                } else {
                    acc = acc * 10 + d;
                }
            }
            j = j + 1;
        }
        if over {
            None
        } else {
            Some(acc)
        }
    }

    /// Reads a number or a symbol at the cursor.
    fn read_token(&mut self) -> (r: Result<RujeExp, ReadError>)
        ensures
            outcome(r, final(self)@) == grammar::read_token(old(self)@),
            r is Ok ==> final(self)@.len() < old(self)@.len(),
    {
        proof {
            use_type_invariant(&*self);
        }
        let ghost s = self@;
        let first = self.peek();
        let negative = match first {
            Some(c) => c == '-',
            None => false,
        };
        let a: usize = match first {
            Some(c) => if c == '+' || c == '-' {
                1
            } else {
                0
            },
            None => 0,
        };
        let b = self.digits_end(a);
        proof {
            grammar::lemma_digits_end(s, a as int);
        }
        if a < b && self.ends_number(b) {
            let magnitude = self.decimal_magnitude(a, b);
            proof {
                let lit = s.subrange(0, b as int);
                assert(lit[0] == s[0]);
                assert(lit.subrange(a as int, lit.len() as int) =~= s.subrange(a as int, b as int));
            }
            self.advance(b);
            return match magnitude {
                Some(m) => {
                    if negative {
                        if m == 0x8000_0000_0000_0000 {
                            Ok(RujeExp::Atom(RujeAtom::Int(i64::MIN)))
                        } else {
                            Ok(RujeExp::Atom(RujeAtom::Int(-(m as i64))))
                        }
                    } else if m < 0x8000_0000_0000_0000 {
                        Ok(RujeExp::Atom(RujeAtom::Int(m as i64)))
                    } else {
                        Err(ReadError::InvalidInput)
                    }
                },
                None => Err(ReadError::InvalidInput),
            };
        }
        let point = match self.peek_at(b) {
            Some(c) => c == '.',
            None => false,
        };
        if point {
            let c = self.digits_end(b + 1);
            if b + 1 < c && self.ends_number(c) {
                let text = self.take_text(c);
                return Ok(RujeExp::Atom(RujeAtom::Float(text)));
            }
        }
        let n = self.symbol_end(0);
        if n > 0 {
            let text = self.take_text(n);
            Ok(RujeExp::Atom(RujeAtom::Symbol(text)))
        } else {
            Err(ReadError::InvalidInput)
        }
    }

    /// Reads one atom: a string literal, an integer, a float or a symbol.
    pub fn read_atom(&mut self) -> (r: Result<RujeExp, ReadError>)
        ensures
            outcome(r, final(self)@) == grammar::read_atom(old(self)@),
            r is Ok ==> final(self)@.len() < old(self)@.len(),
    {
        self.skip_whitespace();
        proof {
            grammar::lemma_skip_whitespace(old(self)@);
        }
        match self.peek() {
            None => Err(ReadError::UnexpectedEof),
            Some(c) => {
                if c == '"' {
                    self.read_string()
                } else {
                    self.read_token()
                }
            },
        }
    }

    /// Reads the items of a list, a vector or a set up to and including
    /// `close`. The cursor stands behind the opening delimiter.
    fn read_items(&mut self, close: char) -> (r: Result<Vec<RujeExp>, ReadError>)
        ensures
            items_outcome(r, final(self)@) == grammar::read_items(old(self)@, close),
            r is Ok ==> final(self)@.len() < old(self)@.len(),
        decreases old(self)@.len(), 6int,
    {
        let mut items: Vec<RujeExp> = Vec::new();
        match self.peek() {
            None => {
                return Err(ReadError::UnexpectedEof);
            },
            Some(c) => {
                if c == close {
                    assert(self@.drop_first() == self@.subrange(1, self@.len() as int));
                    self.advance(1);
                    assert(items_view(items@) =~= Seq::empty());
                    return Ok(items);
                }
            },
        }
        assert(items_view(items@) =~= Seq::empty());
        loop
            invariant
                self@.len() <= old(self)@.len(),
                grammar::read_more_items(self@, close, items_view(items@)) == grammar::read_items(
                    old(self)@,
                    close,
                ),
            decreases self@.len(),
        {
            let ghost before = self@;
            let ghost seen = items_view(items@);
            match self.read() {
                Err(e) => {
                    return Err(e);
                },
                Ok(exp) => {
                    items.push(exp);
                    assert(items_view(items@) =~= seen.push(exp@));
                    proof {
                        grammar::lemma_skip_whitespace(self@);
                    }
                    self.skip_whitespace();
                    match self.peek() {
                        None => {
                            return Err(ReadError::UnexpectedEof);
                        },
                        Some(c) => {
                            if c == close {
                                assert(self@.drop_first() == self@.subrange(
                                    1,
                                    self@.len() as int,
                                ));
                                self.advance(1);
                                return Ok(items);
                            }
                        },
                    }
                },
            }
        }
    }

    /// Reads the pairs of a map up to and including `}`. The cursor stands
    /// behind the opening `{`.
    fn read_pairs(&mut self) -> (r: Result<Vec<(RujeExp, RujeExp)>, ReadError>)
        ensures
            pairs_outcome(r, final(self)@) == grammar::read_pairs(old(self)@),
            r is Ok ==> final(self)@.len() < old(self)@.len(),
        decreases old(self)@.len(), 6int,
    {
        let mut pairs: Vec<(RujeExp, RujeExp)> = Vec::new();
        match self.peek() {
            None => {
                return Err(ReadError::UnexpectedEof);
            },
            Some(c) => {
                if c == '}' {
                    assert(self@.drop_first() == self@.subrange(1, self@.len() as int));
                    self.advance(1);
                    assert(pairs_view(pairs@) =~= Seq::empty());
                    return Ok(pairs);
                }
            },
        }
        assert(pairs_view(pairs@) =~= Seq::empty());
        loop
            invariant
                self@.len() <= old(self)@.len(),
                grammar::read_more_pairs(self@, pairs_view(pairs@)) == grammar::read_pairs(
                    old(self)@,
                ),
            decreases self@.len(),
        {
            let ghost seen = pairs_view(pairs@);
            let key = match self.read() {
                Err(e) => {
                    return Err(e);
                },
                Ok(exp) => exp,
            };
            let value = match self.read() {
                Err(e) => {
                    return Err(e);
                },
                Ok(exp) => exp,
            };
            let ghost pair = (key@, value@);
            pairs.push((key, value));
            assert(pairs_view(pairs@) =~= seen.push(pair));
            proof {
                grammar::lemma_skip_whitespace(self@);
            }
            self.skip_whitespace();
            match self.peek() {
                None => {
                    return Err(ReadError::UnexpectedEof);
                },
                Some(c) => {
                    if c == '}' {
                        assert(self@.drop_first() == self@.subrange(1, self@.len() as int));
                        self.advance(1);
                        return Ok(pairs);
                    }
                },
            }
        }
    }

    /// Reads a list. The cursor stands at its `(`.
    fn read_list(&mut self) -> (r: Result<RujeExp, ReadError>)
        requires
            old(self)@.len() > 0,
        ensures
            outcome(r, final(self)@) == grammar::read_list(old(self)@),
            r is Ok ==> final(self)@.len() < old(self)@.len(),
        decreases old(self)@.len(), 4int,
    {
        assert(old(self)@.drop_first() == old(self)@.subrange(1, old(self)@.len() as int));
        self.advance(1);
        match self.read_items(')') {
            Ok(items) => {
                Ok(RujeExp::List(items))
            },
            Err(e) => Err(e),
        }
    }

    /// Reads a vector. The cursor stands at its `[`.
    fn read_vector(&mut self) -> (r: Result<RujeExp, ReadError>)
        requires
            old(self)@.len() > 0,
        ensures
            outcome(r, final(self)@) == grammar::read_vector(old(self)@),
            r is Ok ==> final(self)@.len() < old(self)@.len(),
        decreases old(self)@.len(), 4int,
    {
        assert(old(self)@.drop_first() == old(self)@.subrange(1, old(self)@.len() as int));
        self.advance(1);
        match self.read_items(']') {
            Ok(items) => {
                Ok(RujeExp::Vector(items))
            },
            Err(e) => Err(e),
        }
    }

    /// Reads a map. The cursor stands at its `{`.
    fn read_map(&mut self) -> (r: Result<RujeExp, ReadError>)
        requires
            old(self)@.len() > 0,
        ensures
            outcome(r, final(self)@) == grammar::read_map(old(self)@),
            r is Ok ==> final(self)@.len() < old(self)@.len(),
        decreases old(self)@.len(), 4int,
    {
        assert(old(self)@.drop_first() == old(self)@.subrange(1, old(self)@.len() as int));
        self.advance(1);
        match self.read_pairs() {
            Ok(pairs) => {
                Ok(RujeExp::MapForm(pairs))
            },
            Err(e) => Err(e),
        }
    }

    /// Reads a set. The cursor stands at the `{` behind its `#`.
    fn read_set(&mut self) -> (r: Result<RujeExp, ReadError>)
        requires
            old(self)@.len() > 0,
        ensures
            outcome(r, final(self)@) == grammar::read_set(old(self)@),
            r is Ok ==> final(self)@.len() < old(self)@.len(),
        decreases old(self)@.len(), 4int,
    {
        assert(old(self)@.drop_first() == old(self)@.subrange(1, old(self)@.len() as int));
        self.advance(1);
        match self.read_items('}') {
            Ok(items) => {
                Ok(RujeExp::SetForm(items))
            },
            Err(e) => Err(e),
        }
    }

    /// Reads one expression and leaves the cursor behind it.
    ///
    /// The result is what the grammar makes of the unread text, and on
    /// success the unread text is what the grammar says is left.
    pub fn read(&mut self) -> (r: Result<RujeExp, ReadError>)
        ensures
            outcome(r, final(self)@) == grammar::read_exp(old(self)@),
            r is Ok ==> final(self)@.len() < old(self)@.len(),
        decreases old(self)@.len(), 5int,
    {
        self.skip_whitespace();
        proof {
            grammar::lemma_skip_whitespace(old(self)@);
            grammar::lemma_read_exp_skips_whitespace(old(self)@);
        }
        let ghost t = self@;
        match self.peek() {
            None => Err(ReadError::UnexpectedEof),
            Some(c) => {
                if c == '(' {
                    self.read_list()
                } else if c == '[' {
                    self.read_vector()
                } else if c == '{' {
                    self.read_map()
                } else if c == '#' {
                    self.advance(1);
                    match self.peek() {
                        None => Err(ReadError::UnexpectedEof),
                        Some(d) => {
                            if d == '{' {
                                assert(self@.drop_first() == t.subrange(2, t.len() as int));
                                self.read_set()
                            } else {
                                Err(ReadError::UnknownReaderMacro)
                            }
                        },
                    }
                } else if c == ')' || c == ']' || c == '}' {
                    Err(ReadError::UnexpectedCloseDelimiter)
                } else {
                    self.read_atom()
                }
            },
        }
    }
}

/// A read's result and the text it left, as the grammar states them.
pub open spec fn outcome(r: Result<RujeExp, ReadError>, rest: Seq<char>) -> Result<
    (ExpView, Seq<char>),
    ReadError,
> {
    match r {
        Ok(e) => Ok((e@, rest)),
        Err(e) => Err(e),
    }
}

/// The items read and the text left, as the grammar states them.
pub open spec fn items_outcome(r: Result<Vec<RujeExp>, ReadError>, rest: Seq<char>) -> Result<
    (Seq<ExpView>, Seq<char>),
    ReadError,
> {
    match r {
        Ok(v) => Ok((items_view(v@), rest)),
        Err(e) => Err(e),
    }
}

/// The pairs read and the text left, as the grammar states them.
pub open spec fn pairs_outcome(
    r: Result<Vec<(RujeExp, RujeExp)>, ReadError>,
    rest: Seq<char>,
) -> Result<(Seq<(ExpView, ExpView)>, Seq<char>), ReadError> {
    match r {
        Ok(v) => Ok((pairs_view(v@), rest)),
        Err(e) => Err(e),
    }
}

} // verus!
