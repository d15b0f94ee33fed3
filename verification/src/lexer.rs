//! Converts raw text into a sequence of tokens.
//!
//! The executable scanner is proved against a specification-level
//! scanning function over the input's characters: `next_token` returns
//! exactly the token that `next_token_spec` yields at the current
//! position, and leaves the scanner at the position that function
//! yields.

use crate::text::{digits_val, is_digit, is_digit_spec, parse_digits, string_of_range, chars_of};
use crate::token::{lookup_ident_spec, Token, TokenV};
use vstd::prelude::*;

verus! {

/// The character at a position, with the input treated as padded with
/// NUL past its end.
pub open spec fn char_at(s: Seq<char>, i: int) -> char {
    if 0 <= i < s.len() {
        s[i]
    } else {
        '\0'
    }
}

/// Whitespace that the scanner skips and never tokenizes.
pub open spec fn is_ws(c: char) -> bool {
    c == ' ' || c == '\t' || c == '\n' || c == '\r'
}

/// Characters accepted inside identifiers: ASCII letters and the
/// underscore.
pub open spec fn is_letter_spec(c: char) -> bool {
    ('a' <= c && c <= 'z') || ('A' <= c && c <= 'Z') || c == '_'
}

/// The first position at or after `p` holding a non-whitespace
/// character, or the input's length.
pub open spec fn skip_ws(s: Seq<char>, p: int) -> int
    decreases s.len() - p,
{
    if 0 <= p < s.len() && is_ws(s[p]) {
        skip_ws(s, p + 1)
    } else {
        p
    }
}

/// The first position at or after `p` not holding a letter.
pub open spec fn scan_letters(s: Seq<char>, p: int) -> int
    decreases s.len() - p,
{
    if 0 <= p < s.len() && is_letter_spec(s[p]) {
        scan_letters(s, p + 1)
    } else {
        p
    }
}

/// The first position at or after `p` not holding a digit.
pub open spec fn scan_digits(s: Seq<char>, p: int) -> int
    decreases s.len() - p,
{
    if 0 <= p < s.len() && is_digit_spec(s[p]) {
        scan_digits(s, p + 1)
    } else {
        p
    }
}

/// The position of the closing quote or NUL terminating a string
/// literal scanned from `p`, or the input's length.
pub open spec fn scan_string_end(s: Seq<char>, p: int) -> int
    decreases s.len() - p,
{
    if 0 <= p < s.len() && s[p] != '"' && s[p] != '\0' {
        scan_string_end(s, p + 1)
    } else {
        p
    }
}

/// The scanner's position after reading one character from `p`: one
/// further, bounded by the input's length.
pub open spec fn step(s: Seq<char>, p: int) -> int {
    if p < s.len() {
        p + 1
    } else {
        p
    }
}

/// The token an identifier or digit run yields, together with the
/// integer-literal policy: a digit run whose value exceeds the signed
/// 64-bit range is an illegal token carrying the run's text.
pub open spec fn int_token(digits: Seq<char>) -> TokenV {
    if digits_val(digits) <= i64::MAX {
        TokenV::Int(digits_val(digits) as i64)
    } else {
        TokenV::Illegal(digits)
    }
}

/// The next token scanned from position `p`, and the position after it.
/// Whitespace before the token is skipped; at the end of the input the
/// end marker is yielded, forever.
pub open spec fn next_token_spec(s: Seq<char>, p: int) -> (TokenV, int) {
    let q = skip_ws(s, p);
    let c = char_at(s, q);
    if c == '\0' {
        (TokenV::EOF, step(s, q))
    } else if c == '=' {
        if char_at(s, q + 1) == '=' {
            (TokenV::Eq, step(s, step(s, q)))
        } else {
            (TokenV::Assign, step(s, q))
        }
    } else if c == '!' {
        if char_at(s, q + 1) == '=' {
            (TokenV::NotEq, step(s, step(s, q)))
        } else {
            (TokenV::Bang, step(s, q))
        }
    } else if c == '+' {
        (TokenV::Plus, step(s, q))
    } else if c == '-' {
        (TokenV::Minus, step(s, q))
    } else if c == '*' {
        (TokenV::Asterisk, step(s, q))
    } else if c == '/' {
        (TokenV::Slash, step(s, q))
    } else if c == '<' {
        (TokenV::Lt, step(s, q))
    } else if c == '>' {
        (TokenV::Gt, step(s, q))
    } else if c == ';' {
        (TokenV::Semicolon, step(s, q))
    } else if c == ':' {
        (TokenV::Colon, step(s, q))
    } else if c == ',' {
        (TokenV::Comma, step(s, q))
    } else if c == '(' {
        (TokenV::LParen, step(s, q))
    } else if c == ')' {
        (TokenV::RParen, step(s, q))
    } else if c == '{' {
        (TokenV::LBrace, step(s, q))
    } else if c == '}' {
        (TokenV::RBrace, step(s, q))
    } else if c == '[' {
        (TokenV::LBracket, step(s, q))
    } else if c == ']' {
        (TokenV::RBracket, step(s, q))
    } else if c == '"' {
        let end = scan_string_end(s, q + 1);
        (TokenV::String(s.subrange(q + 1, end)), step(s, end))
    } else if is_letter_spec(c) {
        let end = scan_letters(s, q);
        (lookup_ident_spec(s.subrange(q, end)), end)
    } else if is_digit_spec(c) {
        let end = scan_digits(s, q);
        (int_token(s.subrange(q, end)), end)
    } else {
        (TokenV::Illegal(seq![c]), step(s, q))
    }
}

/// A forward scan never moves backward and stays within the input.
pub proof fn lemma_scan_bounds(s: Seq<char>, p: int)
    requires
        0 <= p <= s.len(),
    ensures
        p <= skip_ws(s, p) <= s.len(),
        p <= scan_letters(s, p) <= s.len(),
        p <= scan_digits(s, p) <= s.len(),
        p <= scan_string_end(s, p) <= s.len(),
    decreases s.len() - p,
{
    if p < s.len() {
        lemma_scan_bounds(s, p + 1);
    }
}

/// The next token is scanned within the input, and every token other
/// than the end marker moves the position strictly forward.
pub proof fn lemma_next_token_advances(s: Seq<char>, p: int)
    requires
        0 <= p <= s.len(),
    ensures
        p <= next_token_spec(s, p).1 <= s.len(),
        !(next_token_spec(s, p).0 is EOF) ==> next_token_spec(s, p).1 > p,
{
    lemma_scan_bounds(s, p);
    let q = skip_ws(s, p);
    if char_at(s, q) != '\0' {
        if char_at(s, q) == '"' {
            lemma_scan_bounds(s, q + 1);
        } else if is_letter_spec(char_at(s, q)) {
            lemma_scan_bounds(s, q + 1);
            assert(scan_letters(s, q) == scan_letters(s, q + 1));
        } else if is_digit_spec(char_at(s, q)) {
            lemma_scan_bounds(s, q + 1);
            assert(scan_digits(s, q) == scan_digits(s, q + 1));
        }
    }
}

/// The sequence of tokens scanned from position `p` up to and including
/// the first end marker.
pub open spec fn tokens_from(s: Seq<char>, p: int) -> Seq<TokenV>
    decreases s.len() - p
        when 0 <= p <= s.len()
        via tokens_from_decreases
{
    let (t, p2) = next_token_spec(s, p);
    if t is EOF {
        seq![TokenV::EOF]
    } else {
        seq![t] + tokens_from(s, p2)
    }
}

#[via_fn]
proof fn tokens_from_decreases(s: Seq<char>, p: int) {
    lemma_next_token_advances(s, p);
}

/// The whole input's token sequence, end marker included.
pub open spec fn tokens_of(s: Seq<char>) -> Seq<TokenV> {
    tokens_from(s, 0)
}

/// A well-formed scanner's position lies within its input.
pub proof fn lemma_lexer_pos_bound(lx: &Lexer)
    requires
        lx.wf(),
    ensures
        0 <= lx.pos() <= lx.text().len(),
{
}

/// The character-level scanner. It yields one token per call and keeps
/// yielding the end marker once the input is exhausted.
pub struct Lexer {
    input: Vec<char>,
    position: usize,
    read_position: usize,
    ch: char,
}

impl Lexer {
    /// The characters this scanner reads.
    pub closed spec fn text(&self) -> Seq<char> {
        self.input@
    }

    /// The position of the next character to consider.
    pub closed spec fn pos(&self) -> int {
        self.position as int
    }

    /// The scanner's internal consistency: the current character is the
    /// one at the current position (NUL past the end), and the read
    /// position is one further, bounded by the input's length.
    pub closed spec fn wf(&self) -> bool {
        &&& self.position <= self.input@.len()
        &&& self.read_position as int == if self.position + 1 < self.input@.len() {
            self.position + 1 as int
        } else {
            self.input@.len() as int
        }
        &&& self.ch == char_at(self.input@, self.position as int)
    }

    /// A scanner positioned at the start of the given text.
    pub fn new(input: &String) -> (lexer: Lexer)
        ensures
            lexer.wf(),
            lexer.text() == input@,
            lexer.pos() == 0,
    {
        let chars = chars_of(input.as_str());
        if chars.len() > 0 {
            let ch = chars[0];
            let read_position: usize = if chars.len() > 1 {
                1
            } else {
                chars.len()
            };
            Lexer { input: chars, position: 0, read_position, ch }
        } else {
            Lexer { input: chars, position: 0, read_position: 0, ch: '\0' }
        }
    }

    /// The character one past the current one, NUL at or past the end.
    fn peek_char(&self) -> (c: char)
        requires
            self.wf(),
        ensures
            c == char_at(self.text(), self.pos() + 1),
    {
        if self.read_position < self.input.len() {
            self.input[self.read_position]
        } else {
            '\0'
        }
    }

    /// Advances by one character, stopping at the end of the input.
    fn read_char(&mut self)
        requires
            old(self).wf(),
        ensures
            final(self).wf(),
            final(self).text() == old(self).text(),
            final(self).pos() == step(old(self).text(), old(self).pos()),
    {
        self.ch = self.peek_char();
        if self.position < self.input.len() {
            self.position = self.position + 1;
        }
        self.read_position = if self.position < self.input.len() {
            self.position + 1
        } else {
            self.input.len()
        };
    }

    /// Skips whitespace; never tokenized.
    fn skip_white_spaces(&mut self)
        requires
            old(self).wf(),
        ensures
            final(self).wf(),
            final(self).text() == old(self).text(),
            final(self).pos() == skip_ws(old(self).text(), old(self).pos()),
    {
        while self.ch == ' ' || self.ch == '\t' || self.ch == '\n' || self.ch == '\r'
            invariant
                self.wf(),
                self.text() == old(self).text(),
                skip_ws(self.text(), self.pos()) == skip_ws(old(self).text(), old(self).pos()),
            decreases self.text().len() - self.pos(),
        {
            self.read_char();
        }
    }

    /// Reads a letter run: the text of an identifier or keyword.
    fn read_identifier(&mut self) -> (r: String)
        requires
            old(self).wf(),
        ensures
            final(self).wf(),
            final(self).text() == old(self).text(),
            final(self).pos() == scan_letters(old(self).text(), old(self).pos()),
            r@ == old(self).text().subrange(old(self).pos(), final(self).pos()),
    {
        let position = self.position;
        while Self::is_letter(self.ch)
            invariant
                self.wf(),
                self.text() == old(self).text(),
                position as int <= self.pos(),
                scan_letters(self.text(), self.pos()) == scan_letters(
                    old(self).text(),
                    old(self).pos(),
                ),
            decreases self.text().len() - self.pos(),
        {
            self.read_char();
        }
        proof {
            lemma_scan_bounds(self.text(), self.pos());
        }
        string_of_range(&self.input, position, self.position)
    }

    /// Reads a digit run and parses it as a signed 64-bit integer; a
    /// run whose value does not fit yields an illegal token carrying
    /// the run's text.
    fn read_number(&mut self) -> (t: Token)
        requires
            old(self).wf(),
        ensures
            final(self).wf(),
            final(self).text() == old(self).text(),
            final(self).pos() == scan_digits(old(self).text(), old(self).pos()),
            t@ == int_token(old(self).text().subrange(old(self).pos(), final(self).pos())),
    {
        let position = self.position;
        while is_digit(self.ch)
            invariant
                self.wf(),
                self.text() == old(self).text(),
                position as int <= self.pos(),
                forall|j: int| position <= j < self.pos() ==> is_digit_spec(self.text()[j]),
                scan_digits(self.text(), self.pos()) == scan_digits(
                    old(self).text(),
                    old(self).pos(),
                ),
            decreases self.text().len() - self.pos(),
        {
            self.read_char();
        }
        proof {
            lemma_scan_bounds(self.text(), self.pos());
        }
        match parse_digits(&self.input, position, self.position) {
            Some(value) => Token::Int(value),
            None => Token::Illegal(string_of_range(&self.input, position, self.position)),
        }
    }

    /// Reads a string literal's text: everything after the opening
    /// quote up to the next quote, NUL, or the end of the input. No
    /// escape sequences are processed.
    fn read_string(&mut self) -> (r: String)
        requires
            old(self).wf(),
            old(self).pos() < old(self).text().len(),
        ensures
            final(self).wf(),
            final(self).text() == old(self).text(),
            final(self).pos() == scan_string_end(old(self).text(), old(self).pos() + 1),
            r@ == old(self).text().subrange(old(self).pos() + 1, final(self).pos()),
    {
        let position = self.position + 1;
        self.read_char();
        while !(self.ch == '"' || self.ch == '\0')
            invariant
                self.wf(),
                self.text() == old(self).text(),
                position as int <= self.pos(),
                scan_string_end(self.text(), self.pos()) == scan_string_end(
                    old(self).text(),
                    old(self).pos() + 1,
                ),
            decreases self.text().len() - self.pos(),
        {
            self.read_char();
        }
        proof {
            lemma_scan_bounds(self.text(), self.pos());
        }
        string_of_range(&self.input, position, self.position)
    }

    /// Whether a character may appear in an identifier.
    fn is_letter(ch: char) -> (r: bool)
        ensures
            r == is_letter_spec(ch),
    {
        ('a' <= ch && ch <= 'z') || ('A' <= ch && ch <= 'Z') || ch == '_'
    }

    /// Returns the next token and advances past it; after exhaustion
    /// every call returns the end marker.
    pub fn next_token(&mut self) -> (t: Token)
        requires
            old(self).wf(),
        ensures
            final(self).wf(),
            final(self).text() == old(self).text(),
            t@ == next_token_spec(old(self).text(), old(self).pos()).0,
            final(self).pos() == next_token_spec(old(self).text(), old(self).pos()).1,
    {
        self.skip_white_spaces();

        let token = match self.ch {
            '=' => {
                if self.peek_char() == '=' {
                    self.read_char();
                    Token::Eq
                } else {
                    Token::Assign
                }
            },
            '+' => Token::Plus,
            '-' => Token::Minus,
            '!' => {
                if self.peek_char() == '=' {
                    self.read_char();
                    Token::NotEq
                } else {
                    Token::Bang
                }
            },
            '*' => Token::Asterisk,
            '/' => Token::Slash,
            '<' => Token::Lt,
            '>' => Token::Gt,
            ';' => Token::Semicolon,
            ':' => Token::Colon,
            ',' => Token::Comma,
            '(' => Token::LParen,
            ')' => Token::RParen,
            '{' => Token::LBrace,
            '}' => Token::RBrace,
            '"' => Token::String(self.read_string()),
            '[' => Token::LBracket,
            ']' => Token::RBracket,
            '\0' => Token::EOF,
            _ => {
                if Self::is_letter(self.ch) {
                    let literal = self.read_identifier();
                    return Token::lookup_ident(literal);
                } else if is_digit(self.ch) {
                    return self.read_number();
                } else {
                    let mut text = String::new();
                    crate::text::push_char(&mut text, self.ch);
                    proof {
                        assert(text@ =~= seq![self.ch]);
                    }
                    Token::Illegal(text)
                }
            },
        };

        self.read_char();
        token
    }
}

} // verus!
