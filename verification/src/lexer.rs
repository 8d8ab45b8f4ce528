//! The scanner.
//!
//! What the scanner makes of a text is stated by [`scan`], the token that
//! starts at or after an index; [`Lexer::next_token`] is proved to compute
//! it.

use crate::arith::{agrees, answers, total, Operation, Oracle, Query};
use crate::error::{Error, ErrorKind, Fault, Position};
use crate::text::{chars_of, string_of};
use crate::token::{Symbol, Token};
use vstd::prelude::*;

verus! {

/// Whether a character has the Unicode property `White_Space`: the
/// controls from the tabulator to the carriage return, the space, the next
/// line control, the no-break space, the Ogham space mark, the spaces from
/// the en quad to the hair space, the line and paragraph separators, the
/// narrow no-break space, the medium mathematical space and the
/// ideographic space.
pub open spec fn is_whitespace(c: char) -> bool {
    ||| '\u{9}' <= c <= '\u{d}'
    ||| c == ' '
    ||| c == '\u{85}'
    ||| c == '\u{a0}'
    ||| c == '\u{1680}'
    ||| '\u{2000}' <= c <= '\u{200a}'
    ||| c == '\u{2028}'
    ||| c == '\u{2029}'
    ||| c == '\u{202f}'
    ||| c == '\u{205f}'
    ||| c == '\u{3000}'
}

/// `char::is_whitespace`: whether the character has the Unicode property
/// `White_Space`, which the twenty-five code points of [`is_whitespace`]
/// have and no other.
#[verifier::external_body]
fn whitespace(c: char) -> (r: bool)
    ensures
        r == is_whitespace(c),
{
    c.is_whitespace()
}

/// One of the ten decimal digits.
pub open spec fn is_digit(c: char) -> bool {
    '0' <= c <= '9'
}

/// One of the letters `a` to `z` and `A` to `Z`.
pub open spec fn is_letter(c: char) -> bool {
    ('a' <= c <= 'z') || ('A' <= c <= 'Z')
}

/// A character that may start a name.
pub open spec fn starts_name(c: char) -> bool {
    is_letter(c) || c == '_'
}

/// A character that may go on a name.
pub open spec fn continues_name(c: char) -> bool {
    is_letter(c) || is_digit(c) || c == '_'
}

/// The first index at or after `i` that holds no whitespace.
pub open spec fn skip_blank(s: Seq<char>, i: int) -> int
    decreases s.len() - i,
{
    if 0 <= i < s.len() && is_whitespace(s[i]) {
        skip_blank(s, i + 1)
    } else {
        i
    }
}

/// The first index at or after `i` that does not go on a name.
pub open spec fn name_end(s: Seq<char>, i: int) -> int
    decreases s.len() - i,
{
    if 0 <= i < s.len() && continues_name(s[i]) {
        name_end(s, i + 1)
    } else {
        i
    }
}

/// The first index at or after `i` that does not go on a numeral: digits
/// go on, and so does one `.`, unless one has been passed (`dotted`).
pub open spec fn numeral_end(s: Seq<char>, i: int, dotted: bool) -> int
    decreases s.len() - i,
{
    if 0 <= i < s.len() && is_digit(s[i]) {
        numeral_end(s, i + 1, dotted)
    } else if 0 <= i < s.len() && s[i] == '.' && !dotted {
        numeral_end(s, i + 1, true)
    } else {
        i
    }
}

/// The text holds a digit.
pub open spec fn has_digit(t: Seq<char>) -> bool {
    exists|i: int| 0 <= i < t.len() && is_digit(#[trigger] t[i])
}

/// The number of line feeds before index `at`.
pub open spec fn breaks_before(s: Seq<char>, at: int) -> int
    decreases at,
{
    if at <= 0 {
        0
    } else {
        breaks_before(s, at - 1) + if s[at - 1] == '\n' {
            1int
        } else {
            0int
        }
    }
}

/// The number of characters between the last line feed before index `at`
/// and `at`.
pub open spec fn chars_into_line(s: Seq<char>, at: int) -> int
    decreases at,
{
    if at <= 0 || s[at - 1] == '\n' {
        0
    } else {
        chars_into_line(s, at - 1) + 1
    }
}

/// The place of the character at index `at` of a text: its line and column,
/// counted from 1, and its offset in bytes of UTF-8. No place is given for
/// the index that is the largest machine word.
pub open spec fn place(s: Seq<char>, at: int) -> Option<Position> {
    if at >= usize::MAX {
        None
    } else {
        Some(
            Position {
                line: (breaks_before(s, at) + 1) as usize,
                column: (chars_into_line(s, at) + 1) as usize,
                offset: vstd::utf8::encode_utf8(s.subrange(0, at)).len() as usize,
            },
        )
    }
}

/// One step of scanning.
pub enum Scanned {
    /// A token that spans `start..end`.
    Token { token: Symbol, start: int, end: int },
    /// An error that refers to index `at`; scanning would go on at `end`.
    Fault { fault: Fault, at: int, end: int },
}

/// What a numeral that spans `start..end` is: an error where a second
/// decimal point follows it or it holds no digit, else the number `value`.
pub open spec fn numeral(s: Seq<char>, start: int, end: int, value: u64) -> Scanned {
    if end < s.len() && s[end] == '.' {
        // a second decimal point
        Scanned::Fault { fault: Fault::InvalidNumber(s.subrange(start, end + 1)), at: start, end }
    } else if !has_digit(s.subrange(start, end)) {
        Scanned::Fault { fault: Fault::InvalidNumber(s.subrange(start, end)), at: start, end }
    } else {
        Scanned::Token { token: Symbol::Number(value), start, end }
    }
}

/// The text of the numeral that starts at or after index `pos`.
pub open spec fn numeral_text(s: Seq<char>, pos: int) -> Seq<char> {
    let start = skip_blank(s, pos);
    s.subrange(start, numeral_end(s, start, false))
}

/// The token that starts at or after index `pos`, whitespace skipped,
/// where `value` is the number that the token is if it is a numeral.
pub open spec fn scan_with(s: Seq<char>, pos: int, value: u64) -> Scanned {
    let start = skip_blank(s, pos);
    if !(0 <= start < s.len()) {
        Scanned::Token { token: Symbol::EOF, start, end: start }
    } else {
        let c = s[start];
        if c == '+' {
            Scanned::Token { token: Symbol::Plus, start, end: start + 1 }
        } else if c == '-' {
            Scanned::Token { token: Symbol::Minus, start, end: start + 1 }
        } else if c == '*' {
            Scanned::Token { token: Symbol::Star, start, end: start + 1 }
        } else if c == '/' {
            Scanned::Token { token: Symbol::Slash, start, end: start + 1 }
        } else if c == '^' {
            Scanned::Token { token: Symbol::Caret, start, end: start + 1 }
        } else if c == '(' {
            Scanned::Token { token: Symbol::LParen, start, end: start + 1 }
        } else if c == ')' {
            Scanned::Token { token: Symbol::RParen, start, end: start + 1 }
        } else if c == ',' {
            Scanned::Token { token: Symbol::Comma, start, end: start + 1 }
        } else if is_digit(c) || c == '.' {
            numeral(s, start, numeral_end(s, start, false), value)
        } else if starts_name(c) {
            let end = name_end(s, start);
            Scanned::Token { token: Symbol::Identifier(s.subrange(start, end)), start, end }
        } else {
            Scanned::Fault { fault: Fault::UnexpectedCharacter(c), at: start, end: start }
        }
    }
}

/// The token that starts at or after index `pos`, whitespace skipped, under
/// the arithmetic `o`.
pub open spec fn scan(s: Seq<char>, pos: int, o: Oracle) -> Scanned {
    scan_with(s, pos, o(Query::Parse(numeral_text(s, pos))))
}

/// The token at or after index `pos` is a number.
pub open spec fn scans_number(s: Seq<char>, pos: int) -> bool {
    scan_with(s, pos, 0) matches Scanned::Token { token, start, end } && token is Number
}

/// The executable result `r` is what the numeral that spans `start..end`
/// is, with `value` an answer of the unit to that numeral where it is a
/// number.
pub open spec fn number_read<F: Fn(Operation) -> u64>(
    unit: &F,
    r: Result<Token, Error>,
    s: Seq<char>,
    start: int,
    end: int,
    value: u64,
) -> bool {
    &&& numeral(s, start, end, value) is Token ==> answers(
        unit,
        Query::Parse(s.subrange(start, end)),
        value,
    )
    &&& scanned(r, s, numeral(s, start, end, value))
}

/// The executable result `r` is the token at or after index `pos`, with
/// `value` an answer of the unit to its numeral where it is a number, and
/// the scanner stands where the scan ends.
pub open spec fn token_read<F: Fn(Operation) -> u64>(
    unit: &F,
    r: Result<Token, Error>,
    start: int,
    after: int,
    s: Seq<char>,
    pos: int,
    value: u64,
) -> bool {
    &&& scans_number(s, pos) ==> answers(unit, Query::Parse(numeral_text(s, pos)), value)
    &&& read(r, start, after, s, scan_with(s, pos, value))
}

/// The scanner: it hands out the tokens of a text one at a time.
pub struct Lexer<'a> {
    /// The text.
    pub input: &'a str,
    /// The characters of the text.
    pub chars: Vec<char>,
    /// The index of the next character to read.
    pub pos: usize,
    /// The index at which the token read last starts.
    pub start: usize,
}

/// The executable result `r` is what the scan `expected` says, and an error
/// carries the place that the scan refers to.
pub open spec fn scanned(r: Result<Token, Error>, s: Seq<char>, expected: Scanned) -> bool {
    match expected {
        Scanned::Token { token, start, end } => r matches Ok(t) && t@ == token,
        Scanned::Fault { fault, at, end } => r matches Err(e) && e.kind@ == fault && e.position
            == place(s, at) && e.source is None,
    }
}

/// The executable result `r` is what the scan `expected` says, and the
/// scanner stands where the scan ends: `start` at the token, or at the
/// index that the error refers to, and `pos` where scanning goes on.
pub open spec fn read(
    r: Result<Token, Error>,
    start: int,
    pos: int,
    s: Seq<char>,
    expected: Scanned,
) -> bool {
    &&& scanned(r, s, expected)
    &&& match expected {
        Scanned::Token { token, start: from, end } => start == from && pos == end,
        Scanned::Fault { fault, at, end } => start == at && pos == end,
    }
}

impl<'a> Lexer<'a> {
    /// The scanner holds the characters of its text and has not read past
    /// them.
    pub open spec fn wf(&self) -> bool {
        &&& self.chars@ == self.input@
        &&& self.start <= self.pos <= self.chars.len()
    }

    /// A scanner at the start of the text.
    pub fn new(input: &'a str) -> (lexer: Self)
        ensures
            lexer.wf(),
            lexer.input == input,
            lexer.pos == 0,
            lexer.start == 0,
    {
        Self { input, chars: chars_of(input), pos: 0, start: 0 }
    }

    /// The place of the character at index `at` of the text.
    pub fn locate(&self, at: usize) -> (p: Option<Position>)
        requires
            self.wf(),
            at <= self.chars.len(),
        ensures
            p == place(self.input@, at as int),
    {
        if at == usize::MAX {
            return None;
        }
        let mut line: usize = 1;
        let mut column: usize = 1;
        let mut i: usize = 0;
        while i < at
            invariant
                i <= at <= self.chars.len(),
                at < usize::MAX,
                line == breaks_before(self.chars@, i as int) + 1,
                column == chars_into_line(self.chars@, i as int) + 1,
                line <= i + 1,
                column <= i + 1,
            decreases at - i,
        {
            if self.chars[i] == '\n' {
                line += 1;
                column = 1;
            } else {
                column += 1;
            }
            i += 1;
        }
        let offset = self.input.substring_char(0, at).len();
        Some(Position { line, column, offset })
    }

    /// Moves past whitespace.
    pub fn skip_whitespace(&mut self)
        requires
            old(self).wf(),
        ensures
            final(self).wf(),
            final(self).input == old(self).input,
            final(self).start == old(self).start,
            final(self).pos == skip_blank(old(self).input@, old(self).pos as int),
            old(self).pos <= final(self).pos,
    {
        while self.pos < self.chars.len() && whitespace(self.chars[self.pos])
            invariant
                self.wf(),
                self.input == old(self).input,
                self.start == old(self).start,
                old(self).pos <= self.pos,
                skip_blank(self.input@, self.pos as int) == skip_blank(
                    self.input@,
                    old(self).pos as int,
                ),
            decreases self.chars.len() - self.pos,
        {
            self.pos += 1;
        }
    }

    /// Reads the next token.
    pub fn next_token<F: Fn(Operation) -> u64>(&mut self, unit: &F) -> (r: Result<Token, Error>)
        requires
            old(self).wf(),
            total(unit),
        ensures
            final(self).wf(),
            final(self).input == old(self).input,
            old(self).pos <= final(self).start,
            r matches Ok(t) ==> (t@ is EOF <==> final(self).start == final(self).pos),
            exists|value: u64| #[trigger]
                token_read(
                    unit,
                    r,
                    final(self).start as int,
                    final(self).pos as int,
                    old(self).input@,
                    old(self).pos as int,
                    value,
                ),
            forall|o: Oracle| #[trigger]
                agrees(unit, o) ==> read(
                    r,
                    final(self).start as int,
                    final(self).pos as int,
                    old(self).input@,
                    scan(old(self).input@, old(self).pos as int, o),
                ),
    {
        let ghost s = self.input@;
        let ghost from = self.pos as int;
        self.skip_whitespace();
        self.start = self.pos;
        if self.pos >= self.chars.len() {
            let r = Ok(Token::EOF);
            assert(token_read(unit, r, self.start as int, self.pos as int, s, from, 0));
            return r;
        }
        let c = self.chars[self.pos];
        if ('0' <= c && c <= '9') || c == '.' {
            let ghost begin = self.pos as int;
            let r = self.read_number(unit);
            proof {
                let end = self.pos as int;
                let value = choose|value: u64| #[trigger]
                    number_read(unit, r, s, begin, end, value);
                assert(scan_with(s, from, value) == numeral(s, begin, end, value));
                assert(numeral_text(s, from) == s.subrange(begin, end));
                assert(scans_number(s, from) <==> numeral(s, begin, end, value) is Token);
                assert(token_read(unit, r, self.start as int, end, s, from, value));
            }
            return r;
        }
        let r = if c == '+' {
            self.pos += 1;
            Ok(Token::Plus)
        } else if c == '-' {
            self.pos += 1;
            Ok(Token::Minus)
        } else if c == '*' {
            self.pos += 1;
            Ok(Token::Star)
        } else if c == '/' {
            self.pos += 1;
            Ok(Token::Slash)
        } else if c == '^' {
            self.pos += 1;
            Ok(Token::Caret)
        } else if c == '(' {
            self.pos += 1;
            Ok(Token::LParen)
        } else if c == ')' {
            self.pos += 1;
            Ok(Token::RParen)
        } else if c == ',' {
            self.pos += 1;
            Ok(Token::Comma)
        } else if ('a' <= c && c <= 'z') || ('A' <= c && c <= 'Z') || c == '_' {
            self.read_identifier()
        } else {
            let position = self.locate(self.pos);
            Err(Error { kind: ErrorKind::UnexpectedCharacter(c), position, source: None })
        };
        assert(token_read(unit, r, self.start as int, self.pos as int, s, from, 0));
        r
    }

    /// Reads the next token, as `next_token` does; at the end of the input
    /// there is none.
    pub fn next<F: Fn(Operation) -> u64>(&mut self, unit: &F) -> (r: Option<Result<Token, Error>>)
        requires
            old(self).wf(),
            total(unit),
        ensures
            final(self).wf(),
            final(self).input == old(self).input,
            old(self).pos <= final(self).start,
            r is None ==> final(self).start == final(self).pos,
            forall|o: Oracle| #[trigger]
                agrees(unit, o) ==> {
                    let expected = scan(old(self).input@, old(self).pos as int, o);
                    let start = final(self).start as int;
                    let pos = final(self).pos as int;
                    match expected {
                        Scanned::Token { token, start: from, end } => {
                            &&& start == from && pos == end
                            &&& if token is EOF {
                                r is None
                            } else {
                                r matches Some(x) && scanned(x, old(self).input@, expected)
                            }
                        },
                        Scanned::Fault { fault, at, end } => {
                            &&& start == at && pos == end
                            &&& r matches Some(x) && scanned(x, old(self).input@, expected)
                        },
                    }
                },
    {
        match self.next_token(unit) {
            Ok(Token::EOF) => None,
            token => Some(token),
        }
    }

    /// Reads a numeral that starts at the next character.
    fn read_number<F: Fn(Operation) -> u64>(&mut self, unit: &F) -> (r: Result<Token, Error>)
        requires
            old(self).wf(),
            total(unit),
            old(self).start == old(self).pos,
            old(self).pos < old(self).chars.len(),
            is_digit(old(self).input@[old(self).pos as int]) || old(self).input@[old(
                self,
            ).pos as int] == '.',
        ensures
            final(self).wf(),
            final(self).input == old(self).input,
            final(self).start == old(self).start,
            final(self).pos == numeral_end(old(self).input@, old(self).pos as int, false),
            old(self).pos < final(self).pos,
            r matches Ok(t) ==> t@ is Number,
            exists|value: u64| #[trigger]
                number_read(
                    unit,
                    r,
                    old(self).input@,
                    old(self).pos as int,
                    final(self).pos as int,
                    value,
                ),
    {
        let begin = self.pos;
        let mut has_decimal = false;
        let mut digits = false;
        while self.pos < self.chars.len() && ((('0' <= self.chars[self.pos]) && (
        self.chars[self.pos] <= '9')) || (self.chars[self.pos] == '.' && !has_decimal))
            invariant
                self.wf(),
                self.input == old(self).input,
                self.start == old(self).start,
                begin == old(self).pos,
                begin <= self.pos,
                begin < self.chars.len(),
                is_digit(self.input@[begin as int]) || self.input@[begin as int] == '.',
                self.pos == begin ==> !has_decimal,
                numeral_end(self.input@, begin as int, false) == numeral_end(
                    self.input@,
                    self.pos as int,
                    has_decimal,
                ),
                digits == has_digit(self.input@.subrange(begin as int, self.pos as int)),
            decreases self.chars.len() - self.pos,
        {
            let ghost before = self.input@.subrange(begin as int, self.pos as int);
            let ghost after = self.input@.subrange(begin as int, self.pos + 1);
            proof {
                assert(after =~= before.push(self.input@[self.pos as int]));
                if has_digit(before) {
                    let i = choose|i: int| 0 <= i < before.len() && is_digit(#[trigger] before[i]);
                    assert(is_digit(after[i]));
                }
                if is_digit(self.input@[self.pos as int]) {
                    assert(is_digit(after[after.len() - 1]));
                }
                if has_digit(after) && !is_digit(self.input@[self.pos as int]) {
                    let i = choose|i: int| 0 <= i < after.len() && is_digit(#[trigger] after[i]);
                    assert(is_digit(before[i]));
                }
            }
            if self.chars[self.pos] == '.' {
                has_decimal = true;
            } else {
                digits = true;
            }
            self.pos += 1;
        }
        let ghost s = self.input@;
        if self.pos < self.chars.len() && self.chars[self.pos] == '.' {
            let text = string_of(&self.chars, begin, self.pos + 1);
            let position = self.locate(begin);
            let r = Err(Error { kind: ErrorKind::InvalidNumber(text), position, source: None });
            assert(number_read(unit, r, s, begin as int, self.pos as int, 0));
            return r;
        }
        let text = string_of(&self.chars, begin, self.pos);
        if !digits {
            let position = self.locate(begin);
            let r = Err(Error { kind: ErrorKind::InvalidNumber(text), position, source: None });
            assert(number_read(unit, r, s, begin as int, self.pos as int, 0));
            return r;
        }
        let q = Operation::Parse(text.as_str());
        assert(q@ == Query::Parse(text@));
        let value = unit(q);
        let r = Ok(Token::Number(value));
        assert(number_read(unit, r, s, begin as int, self.pos as int, value));
        r
    }

    /// Reads a name that starts at the next character.
    fn read_identifier(&mut self) -> (r: Result<Token, Error>)
        requires
            old(self).wf(),
            old(self).pos < old(self).chars.len(),
            starts_name(old(self).input@[old(self).pos as int]),
        ensures
            final(self).wf(),
            final(self).input == old(self).input,
            final(self).start == old(self).start,
            final(self).pos == name_end(old(self).input@, old(self).pos as int),
            old(self).pos < final(self).pos,
            r matches Ok(t) && t@ == Symbol::Identifier(
                old(self).input@.subrange(old(self).pos as int, final(self).pos as int),
            ),
    {
        let begin = self.pos;
        while self.pos < self.chars.len() && (('a' <= self.chars[self.pos] && self.chars[self.pos]
            <= 'z') || ('A' <= self.chars[self.pos] && self.chars[self.pos] <= 'Z') || ('0'
            <= self.chars[self.pos] && self.chars[self.pos] <= '9') || self.chars[self.pos] == '_')
            invariant
                self.wf(),
                self.input == old(self).input,
                self.start == old(self).start,
                begin == old(self).pos,
                begin <= self.pos,
                begin < self.chars.len(),
                starts_name(self.input@[begin as int]),
                name_end(self.input@, begin as int) == name_end(self.input@, self.pos as int),
            decreases self.chars.len() - self.pos,
        {
            self.pos += 1;
        }
        Ok(Token::Identifier(string_of(&self.chars, begin, self.pos)))
    }
}

} // verus!
