//! The scanning engine: a cursor over the input characters that yields one
//! token per call.

use vstd::prelude::*;

use crate::token::Token;
use crate::token::TokenV;
use crate::token::lookup_ident_v;

verus! {

/// The characters the scanner skips between tokens: the Unicode white-space
/// set, as the `White_Space` property defines it.
pub open spec fn is_whitespace_char(c: char) -> bool {
    ||| c == ' '
    ||| c == '\t'
    ||| c == '\n'
    ||| c == '\r'
    ||| c == '\u{000B}'
    ||| c == '\u{000C}'
    ||| c == '\u{0085}'
    ||| c == '\u{00A0}'
    ||| c == '\u{1680}'
    ||| ((c as u32) >= 0x2000 && (c as u32) <= 0x200A)
    ||| c == '\u{2028}'
    ||| c == '\u{2029}'
    ||| c == '\u{202F}'
    ||| c == '\u{205F}'
    ||| c == '\u{3000}'
}

/// The characters that start and extend an identifier-shaped run.
pub open spec fn is_letter(c: char) -> bool {
    (c as u32) >= ('a' as u32) && (c as u32) <= ('z' as u32)
}

/// The characters that start and extend a number-shaped run.
pub open spec fn is_digit(c: char) -> bool {
    (c as u32) >= ('0' as u32) && (c as u32) <= ('9' as u32)
}

/// The characters that the single- and two-character branches recognize.
pub open spec fn is_operator_char(c: char) -> bool {
    ||| c == '='
    ||| c == '!'
    ||| c == ';'
    ||| c == '('
    ||| c == ')'
    ||| c == ','
    ||| c == '+'
    ||| c == '-'
    ||| c == '/'
    ||| c == '*'
    ||| c == '<'
    ||| c == '>'
    ||| c == '{'
    ||| c == '}'
}

/// A character some classification rule matches; anything else yields an
/// illegal token.
pub open spec fn is_recognized(c: char) -> bool {
    is_operator_char(c) || is_letter(c) || is_digit(c)
}

/// The first position at or after `i` that does not hold whitespace, or the
/// end of the input.
pub open spec fn skip_ws_from(s: Seq<char>, i: int) -> int
    recommends
        0 <= i <= s.len(),
    decreases s.len() - i,
        when 0 <= i <= s.len()
{
    if i < s.len() && is_whitespace_char(s[i]) {
        skip_ws_from(s, i + 1)
    } else {
        i
    }
}

/// Where the run of lowercase letters starting at `i` stops: the first
/// position at or after `i` that does not hold a lowercase letter.
pub open spec fn letter_run_end(s: Seq<char>, i: int) -> int
    recommends
        0 <= i <= s.len(),
    decreases s.len() - i,
        when 0 <= i <= s.len()
{
    if i < s.len() && is_letter(s[i]) {
        letter_run_end(s, i + 1)
    } else {
        i
    }
}

/// Where the run of decimal digits starting at `i` stops.
pub open spec fn digit_run_end(s: Seq<char>, i: int) -> int
    recommends
        0 <= i <= s.len(),
    decreases s.len() - i,
        when 0 <= i <= s.len()
{
    if i < s.len() && is_digit(s[i]) {
        digit_run_end(s, i + 1)
    } else {
        i
    }
}

/// The base-10 value of a run of digits.
pub open spec fn digits_value(s: Seq<char>) -> int
    decreases s.len(),
{
    if s.len() == 0 {
        0
    } else {
        digits_value(s.drop_last()) * 10 + (s.last() as int - '0' as int)
    }
}

/// The value an integer literal carries: the base-10 value of its digit run,
/// or zero where that value does not fit a signed 64-bit integer.
pub open spec fn int_token_value(s: Seq<char>) -> int {
    if digits_value(s) <= i64::MAX {
        digits_value(s)
    } else {
        0
    }
}

/// The token the scanner emits when standing at position `i`, together with
/// the position of the first character after it. Meant for a position with
/// the whitespace already skipped; `spec_next_token` composes the two steps.
pub open spec fn spec_token_at(s: Seq<char>, i: int) -> (TokenV, int)
    recommends
        0 <= i <= s.len(),
{
    if i >= s.len() {
        (TokenV::Eof, i)
    } else {
        let c = s[i];
        if c == '=' {
            if i + 1 < s.len() && s[i + 1] == '=' {
                (TokenV::Equal, i + 2)
            } else {
                (TokenV::Assign, i + 1)
            }
        } else if c == '!' {
            if i + 1 < s.len() && s[i + 1] == '=' {
                (TokenV::NotEqual, i + 2)
            } else {
                (TokenV::Bang, i + 1)
            }
        } else if c == ';' {
            (TokenV::Semicolon, i + 1)
        } else if c == '(' {
            (TokenV::LParen, i + 1)
        } else if c == ')' {
            (TokenV::RParen, i + 1)
        } else if c == ',' {
            (TokenV::Comma, i + 1)
        } else if c == '+' {
            (TokenV::Plus, i + 1)
        } else if c == '-' {
            (TokenV::Minus, i + 1)
        } else if c == '/' {
            (TokenV::Slash, i + 1)
        } else if c == '*' {
            (TokenV::Asterisk, i + 1)
        } else if c == '<' {
            (TokenV::LessThan, i + 1)
        } else if c == '>' {
            (TokenV::GreaterThan, i + 1)
        } else if c == '{' {
            (TokenV::LBrace, i + 1)
        } else if c == '}' {
            (TokenV::RBrace, i + 1)
        } else if is_letter(c) {
            let j = letter_run_end(s, i);
            (lookup_ident_v(s.subrange(i, j)), j)
        } else if is_digit(c) {
            let j = digit_run_end(s, i);
            (TokenV::Int(int_token_value(s.subrange(i, j))), j)
        } else {
            (TokenV::Illegal, i + 1)
        }
    }
}

/// What one call of `next_token` does from position `i`: skip whitespace,
/// then emit the token found there. The pair is the token and the cursor
/// position after the call.
pub open spec fn spec_next_token(s: Seq<char>, i: int) -> (TokenV, int)
    recommends
        0 <= i <= s.len(),
{
    spec_token_at(s, skip_ws_from(s, i))
}

/// Whitespace skipping stops exactly at the first non-whitespace character:
/// everything passed over is whitespace, and the stopping character is not.
pub proof fn lemma_skip_ws(s: Seq<char>, i: int)
    requires
        0 <= i <= s.len(),
    ensures
        i <= skip_ws_from(s, i) <= s.len(),
        forall|k: int| i <= k < skip_ws_from(s, i) ==> is_whitespace_char(s[k]),
        skip_ws_from(s, i) < s.len() ==> !is_whitespace_char(s[skip_ws_from(s, i)]),
    decreases s.len() - i,
{
    if i < s.len() && is_whitespace_char(s[i]) {
        lemma_skip_ws(s, i + 1);
    }
}

/// A letter run is greedy and maximal: it covers every consecutive lowercase
/// letter from its start, stops at the first character outside the class, and
/// is non-empty when it starts on a letter.
pub proof fn lemma_letter_run(s: Seq<char>, i: int)
    requires
        0 <= i <= s.len(),
    ensures
        i <= letter_run_end(s, i) <= s.len(),
        forall|k: int| i <= k < letter_run_end(s, i) ==> is_letter(s[k]),
        letter_run_end(s, i) < s.len() ==> !is_letter(s[letter_run_end(s, i)]),
        i < s.len() && is_letter(s[i]) ==> letter_run_end(s, i) > i,
    decreases s.len() - i,
{
    if i < s.len() && is_letter(s[i]) {
        lemma_letter_run(s, i + 1);
    }
}

/// A digit run is greedy and maximal in the same way as a letter run.
pub proof fn lemma_digit_run(s: Seq<char>, i: int)
    requires
        0 <= i <= s.len(),
    ensures
        i <= digit_run_end(s, i) <= s.len(),
        forall|k: int| i <= k < digit_run_end(s, i) ==> is_digit(s[k]),
        digit_run_end(s, i) < s.len() ==> !is_digit(s[digit_run_end(s, i)]),
        i < s.len() && is_digit(s[i]) ==> digit_run_end(s, i) > i,
    decreases s.len() - i,
{
    if i < s.len() && is_digit(s[i]) {
        lemma_digit_run(s, i + 1);
    }
}

fn is_whitespace_exec(c: char) -> (r: bool)
    ensures
        r == is_whitespace_char(c),
{
    c == ' ' || c == '\t' || c == '\n' || c == '\r' || c == '\u{000B}' || c == '\u{000C}'
        || c == '\u{0085}' || c == '\u{00A0}' || c == '\u{1680}'
        || ((c as u32) >= 0x2000 && (c as u32) <= 0x200A) || c == '\u{2028}' || c == '\u{2029}'
        || c == '\u{202F}' || c == '\u{205F}' || c == '\u{3000}'
}

fn is_letter_exec(c: char) -> (r: bool)
    ensures
        r == is_letter(c),
{
    (c as u32) >= ('a' as u32) && (c as u32) <= ('z' as u32)
}

fn is_digit_exec(c: char) -> (r: bool)
    ensures
        r == is_digit(c),
{
    (c as u32) >= ('0' as u32) && (c as u32) <= ('9' as u32)
}

/// The character a well-formed scanner holds as current at position `i`:
/// the one at `i`, or nothing once the input is exhausted.
pub open spec fn char_at(s: Seq<char>, i: int) -> Option<char> {
    if 0 <= i < s.len() {
        Some(s[i])
    } else {
        None
    }
}

/// The scanning engine: the full input as an indexable sequence of
/// characters, a cursor into it, and the currently examined character.
pub struct Lexer {
    input: String,
    length: usize,
    position: usize,
    ch: Option<char>,
}

impl Lexer {
    /// Well-formedness: the cached length is the input's character count, the
    /// cursor never leaves the input (the position one past the last
    /// character stands for exhaustion), and the current character is the one
    /// at the cursor.
    pub closed spec fn wf(self) -> bool {
        &&& self.length == self.input@.len()
        &&& self.position <= self.length
        &&& self.ch == char_at(self.input@, self.position as int)
    }

    /// The input being scanned, as a sequence of characters.
    pub closed spec fn text(self) -> Seq<char> {
        self.input@
    }

    /// The cursor: how many characters have been consumed so far.
    pub closed spec fn pos(self) -> int {
        self.position as int
    }

    /// Construct a scanner over the given source text, with the first
    /// character (if any) already loaded as current.
    pub fn new(input: &str) -> (l: Lexer)
        ensures
            l.wf(),
            l.text() == input@,
            l.pos() == 0,
    {
        let owned: String = input.to_owned();
        let length: usize = owned.as_str().unicode_len();
        let ch: Option<char> = if length > 0 {
            Some(owned.as_str().get_char(0))
        } else {
            None
        };
        Lexer { input: owned, length, position: 0, ch }
    }

    /// Advance the cursor by one character, or leave it in place once the
    /// input is exhausted.
    fn read_char(&mut self)
        requires
            old(self).wf(),
        ensures
            final(self).wf(),
            final(self).text() == old(self).text(),
            final(self).pos() == if old(self).pos() < old(self).text().len() {
                old(self).pos() + 1
            } else {
                old(self).pos()
            },
    {
        if self.position < self.length {
            self.position = self.position + 1;
        }
        if self.position < self.length {
            let c = self.input.as_str().get_char(self.position);
            self.ch = Some(c);
        } else {
            self.ch = None;
        }
    }

    /// Look one character past the current one without consuming anything.
    fn peek_char(&self) -> (r: Option<char>)
        requires
            self.wf(),
        ensures
            r == char_at(self.text(), self.pos() + 1),
    {
        if self.position < self.length {
            let next: usize = self.position + 1;
            if next < self.length {
                Some(self.input.as_str().get_char(next))
            } else {
                None
            }
        } else {
            None
        }
    }

    /// Move the cursor to the first non-whitespace character at or after it,
    /// emitting nothing.
    fn skip_whitespace(&mut self)
        requires
            old(self).wf(),
        ensures
            final(self).wf(),
            final(self).text() == old(self).text(),
            final(self).pos() == skip_ws_from(old(self).text(), old(self).pos()),
    {
        loop
            invariant
                self.wf(),
                self.text() == old(self).text(),
                old(self).pos() <= self.pos() <= self.text().len(),
                skip_ws_from(self.text(), old(self).pos()) == skip_ws_from(
                    self.text(),
                    self.pos(),
                ),
            ensures
                self.wf(),
                self.text() == old(self).text(),
                old(self).pos() <= self.pos() <= self.text().len(),
                skip_ws_from(self.text(), old(self).pos()) == skip_ws_from(
                    self.text(),
                    self.pos(),
                ),
                self.pos() == self.text().len() || !is_whitespace_char(
                    self.text()[self.pos()],
                ),
            decreases self.text().len() - self.pos(),
        {
            let stop = match self.ch {
                Some(c) => !is_whitespace_exec(c),
                None => true,
            };
            if stop {
                break;
            }
            self.read_char();
        }
        assert(skip_ws_from(self.text(), self.pos()) == self.pos());
    }

    /// Advance past the next token in the input and return it: skip
    /// whitespace, classify the character at the cursor, consume exactly the
    /// characters of the token, and emit it. Once the input is exhausted this
    /// keeps returning the end-of-input token, never an error.
    pub fn next_token(&mut self) -> (t: Token)
        requires
            old(self).wf(),
        ensures
            final(self).wf(),
            final(self).text() == old(self).text(),
            t@ == spec_next_token(old(self).text(), old(self).pos()).0,
            final(self).pos() == spec_next_token(old(self).text(), old(self).pos()).1,
    {
        self.skip_whitespace();
        proof {
            lemma_skip_ws(old(self).text(), old(self).pos());
        }
        let token: Token = match self.ch {
            None => Token::EOF,
            Some(c) => {
                if c == '=' {
                    let peek_eq = match self.peek_char() {
                        Some(p) => p == '=',
                        None => false,
                    };
                    if peek_eq {
                        self.read_char();
                        Token::EQ
                    } else {
                        Token::ASSIGN
                    }
                } else if c == '!' {
                    let peek_eq = match self.peek_char() {
                        Some(p) => p == '=',
                        None => false,
                    };
                    if peek_eq {
                        self.read_char();
                        Token::NotEq
                    } else {
                        Token::BANG
                    }
                } else if c == ';' {
                    Token::SEMICOLON
                } else if c == '(' {
                    Token::LPAREN
                } else if c == ')' {
                    Token::RPAREN
                } else if c == ',' {
                    Token::COMMA
                } else if c == '+' {
                    Token::PLUS
                } else if c == '-' {
                    Token::MINUS
                } else if c == '/' {
                    Token::SLASH
                } else if c == '*' {
                    Token::ASTERISK
                } else if c == '<' {
                    Token::LT
                } else if c == '>' {
                    Token::GT
                } else if c == '{' {
                    Token::LBRACE
                } else if c == '}' {
                    Token::RBRACE
                } else if is_letter_exec(c) {
                    let ident = self.read_identifier();
                    return crate::token::lookup_ident(ident.as_str());
                } else if is_digit_exec(c) {
                    let ghost run_start = self.pos();
                    let digits = self.read_number();
                    assert(forall|k: int| 0 <= k < digits@.len() ==> is_digit(digits@[k])) by {
                        lemma_digit_run(self.text(), run_start);
                    }
                    let value = parse_digits(digits.as_str());
                    return Token::INT(value);
                } else {
                    Token::ILLEGAL
                }
            },
        };
        self.read_char();
        token
    }

    /// Accumulate the run of lowercase letters at the cursor, greedily, and
    /// leave the cursor exactly at the first character outside the class.
    fn read_identifier(&mut self) -> (r: String)
        requires
            old(self).wf(),
        ensures
            final(self).wf(),
            final(self).text() == old(self).text(),
            final(self).pos() == letter_run_end(old(self).text(), old(self).pos()),
            r@ == old(self).text().subrange(
                old(self).pos(),
                letter_run_end(old(self).text(), old(self).pos()),
            ),
    {
        let start: usize = self.position;
        loop
            invariant
                self.wf(),
                self.text() == old(self).text(),
                old(self).pos() <= self.pos() <= self.text().len(),
                start == old(self).pos(),
                letter_run_end(self.text(), old(self).pos()) == letter_run_end(
                    self.text(),
                    self.pos(),
                ),
            ensures
                self.wf(),
                self.text() == old(self).text(),
                start == old(self).pos(),
                old(self).pos() <= self.pos() <= self.text().len(),
                letter_run_end(self.text(), old(self).pos()) == letter_run_end(
                    self.text(),
                    self.pos(),
                ),
                self.pos() == self.text().len() || !is_letter(self.text()[self.pos()]),
            decreases self.text().len() - self.pos(),
        {
            let stop = match self.ch {
                Some(c) => !is_letter_exec(c),
                None => true,
            };
            if stop {
                break;
            }
            self.read_char();
        }
        assert(letter_run_end(self.text(), self.pos()) == self.pos());
        let piece = self.input.as_str().substring_char(start, self.position);
        piece.to_owned()
    }

    /// Accumulate the run of decimal digits at the cursor, greedily, and
    /// leave the cursor exactly at the first character outside the class.
    fn read_number(&mut self) -> (r: String)
        requires
            old(self).wf(),
        ensures
            final(self).wf(),
            final(self).text() == old(self).text(),
            final(self).pos() == digit_run_end(old(self).text(), old(self).pos()),
            r@ == old(self).text().subrange(
                old(self).pos(),
                digit_run_end(old(self).text(), old(self).pos()),
            ),
    {
        let start: usize = self.position;
        loop
            invariant
                self.wf(),
                self.text() == old(self).text(),
                old(self).pos() <= self.pos() <= self.text().len(),
                start == old(self).pos(),
                digit_run_end(self.text(), old(self).pos()) == digit_run_end(
                    self.text(),
                    self.pos(),
                ),
            ensures
                self.wf(),
                self.text() == old(self).text(),
                start == old(self).pos(),
                old(self).pos() <= self.pos() <= self.text().len(),
                digit_run_end(self.text(), old(self).pos()) == digit_run_end(
                    self.text(),
                    self.pos(),
                ),
                self.pos() == self.text().len() || !is_digit(self.text()[self.pos()]),
            decreases self.text().len() - self.pos(),
        {
            let stop = match self.ch {
                Some(c) => !is_digit_exec(c),
                None => true,
            };
            if stop {
                break;
            }
            self.read_char();
        }
        assert(digit_run_end(self.text(), self.pos()) == self.pos());
        let piece = self.input.as_str().substring_char(start, self.position);
        piece.to_owned()
    }
}

/// Interpret a run of digits as a base-10 signed 64-bit integer; a run whose
/// value does not fit degrades to zero rather than failing.
fn parse_digits(s: &str) -> (n: i64)
    requires
        forall|k: int| 0 <= k < s@.len() ==> is_digit(s@[k]),
    ensures
        n == int_token_value(s@),
{
    let len: usize = s.unicode_len();
    let mut acc: i64 = 0;
    let mut overflowed: bool = false;
    let mut k: usize = 0;
    while k < len
        invariant
            forall|m: int| 0 <= m < s@.len() ==> is_digit(s@[m]),
            len == s@.len(),
            0 <= k <= len,
            !overflowed ==> 0 <= acc && acc == digits_value(s@.subrange(0, k as int)),
            overflowed ==> digits_value(s@.subrange(0, k as int)) > i64::MAX,
        decreases len - k,
    {
        let c = s.get_char(k);
        assert(is_digit(s@[k as int]));
        let d: i64 = ((c as u32) - ('0' as u32)) as i64;
        assert(0 <= d <= 9);
        let ghost prefix = s@.subrange(0, k as int);
        let ghost extended = s@.subrange(0, k as int + 1);
        assert(extended.drop_last() =~= prefix);
        assert(extended.last() == s@[k as int]);
        assert(digits_value(extended) == digits_value(prefix) * 10 + d);
        if !overflowed && acc <= (i64::MAX - d) / 10 {
            assert(acc * 10 + d <= i64::MAX) by {
                assert(acc * 10 <= ((i64::MAX - d) / 10) * 10) by (nonlinear_arith)
                    requires
                        0 <= acc <= (i64::MAX - d) / 10,
                ;
                assert(((i64::MAX - d) / 10) * 10 <= i64::MAX - d) by (nonlinear_arith)
                    requires
                        0 <= d <= 9,
                ;
            }
            acc = acc * 10 + d;
        } else if !overflowed {
            assert(acc > (i64::MAX - d) / 10);
            assert(acc * 10 + d > i64::MAX) by (nonlinear_arith)
                requires
                    0 <= d <= 9,
                    acc > (i64::MAX - d) / 10,
            ;
            overflowed = true;
        } else {
            assert(digits_value(prefix) > i64::MAX);
            assert(digits_value(extended) > i64::MAX) by (nonlinear_arith)
                requires
                    digits_value(extended) == digits_value(prefix) * 10 + d,
                    digits_value(prefix) > i64::MAX,
                    0 <= d,
            ;
        }
        k = k + 1;
    }
    assert(s@.subrange(0, len as int) =~= s@);
    if overflowed {
        0
    } else {
        acc
    }
}

} // verus!
