//! The scanner: source bytes to tokens.
//!
//! Blanks and `//` comments separate tokens. A string runs from a double
//! quote to the next one, without escapes, and may span lines. A number is a
//! run of digits, optionally followed by a dot and another run of digits. A
//! word is a letter or underscore followed by letters, digits and underscores;
//! it is a keyword or an identifier. Any other byte is an error token.

use vstd::prelude::*;
use vstd::string::StringSliceAdditionalSpecFns;
use crate::token::{Token, TokenType};
use crate::utils::bytes_equal;

verus! {

/// The byte is an ASCII digit.
pub open spec fn spec_is_digit(c: u8) -> bool {
    48 <= c <= 57
}

/// The byte is an ASCII letter or an underscore.
pub open spec fn spec_is_alphabet(c: u8) -> bool {
    (97 <= c <= 122) || (65 <= c <= 90) || c == 95
}

/// The byte at `i`, or 0 beyond the end.
pub open spec fn byte_at(bytes: Seq<u8>, i: int) -> u8 {
    if 0 <= i < bytes.len() {
        bytes[i]
    } else {
        0
    }
}

/// The line number after one more line break; it stays at the largest
/// `usize`.
pub open spec fn bump(line: usize) -> usize {
    if line < usize::MAX {
        (line + 1) as usize
    } else {
        line
    }
}

/// The first index from `from` on whose byte is not a digit.
pub open spec fn digits_end(bytes: Seq<u8>, from: int) -> int
    decreases bytes.len() - from,
{
    if 0 <= from < bytes.len() && spec_is_digit(bytes[from]) {
        digits_end(bytes, from + 1)
    } else {
        from
    }
}

/// The first index from `from` on whose byte is neither a letter, a digit nor
/// an underscore.
pub open spec fn word_end(bytes: Seq<u8>, from: int) -> int
    decreases bytes.len() - from,
{
    if 0 <= from < bytes.len() && (spec_is_alphabet(bytes[from]) || spec_is_digit(bytes[from])) {
        word_end(bytes, from + 1)
    } else {
        from
    }
}

/// Where a string that starts before `from` ends, and the line there: the
/// index of the next double quote, or the end of the source.
pub open spec fn quote_end(bytes: Seq<u8>, from: int, line: usize) -> (int, usize)
    decreases bytes.len() - from,
{
    if 0 <= from < bytes.len() && bytes[from] != 34 {
        quote_end(
            bytes,
            from + 1,
            if bytes[from] == 10 {
                bump(line)
            } else {
                line
            },
        )
    } else {
        (from, line)
    }
}

/// Where a number that starts at `from` ends: after its digits, and after a
/// dot and more digits when a digit follows the dot.
pub open spec fn number_end(bytes: Seq<u8>, from: int) -> int {
    let whole = digits_end(bytes, from);
    if byte_at(bytes, whole) == 46 && spec_is_digit(byte_at(bytes, whole + 1)) {
        digits_end(bytes, whole + 1)
    } else {
        whole
    }
}

/// Where the blanks and comments from `from` on end, and the line there.
/// `in_comment` says that `from` lies inside a comment.
pub open spec fn blank_end(bytes: Seq<u8>, from: int, line: usize, in_comment: bool) -> (int, usize)
    decreases bytes.len() - from, if in_comment { 1int } else { 0int },
{
    if from < 0 || from >= bytes.len() {
        (from, line)
    } else if in_comment {
        if bytes[from] == 10 {
            blank_end(bytes, from, line, false)
        } else {
            blank_end(bytes, from + 1, line, true)
        }
    } else if bytes[from] == 32 || bytes[from] == 13 || bytes[from] == 9 {
        blank_end(bytes, from + 1, line, false)
    } else if bytes[from] == 10 {
        blank_end(bytes, from + 1, bump(line), false)
    } else if bytes[from] == 47 && byte_at(bytes, from + 1) == 47 {
        blank_end(bytes, from + 2, line, true)
    } else {
        (from, line)
    }
}

/// The keyword that the word is, if it is one.
pub open spec fn spec_keyword(word: Seq<u8>) -> Option<TokenType> {
    if word == "and".spec_bytes() {
        Some(TokenType::And)
    } else if word == "class".spec_bytes() {
        Some(TokenType::Class)
    } else if word == "else".spec_bytes() {
        Some(TokenType::Else)
    } else if word == "false".spec_bytes() {
        Some(TokenType::False)
    } else if word == "for".spec_bytes() {
        Some(TokenType::For)
    } else if word == "fun".spec_bytes() {
        Some(TokenType::Fun)
    } else if word == "if".spec_bytes() {
        Some(TokenType::If)
    } else if word == "nil".spec_bytes() {
        Some(TokenType::Nil)
    } else if word == "or".spec_bytes() {
        Some(TokenType::Or)
    } else if word == "print".spec_bytes() {
        Some(TokenType::Print)
    } else if word == "return".spec_bytes() {
        Some(TokenType::Return)
    } else if word == "super".spec_bytes() {
        Some(TokenType::Super)
    } else if word == "this".spec_bytes() {
        Some(TokenType::This)
    } else if word == "true".spec_bytes() {
        Some(TokenType::True)
    } else if word == "var".spec_bytes() {
        Some(TokenType::Var)
    } else if word == "while".spec_bytes() {
        Some(TokenType::While)
    } else {
        None
    }
}

/// The kind of a token that is one or two punctuation bytes, given its first
/// byte and the byte after it, and the length of the token.
pub open spec fn spec_punctuation(c: u8, next: u8) -> Option<(TokenType, int)> {
    if c == 40 {
        Some((TokenType::LeftParen, 1))
    } else if c == 41 {
        Some((TokenType::RightParen, 1))
    } else if c == 123 {
        Some((TokenType::LeftBrace, 1))
    } else if c == 125 {
        Some((TokenType::RightBrace, 1))
    } else if c == 44 {
        Some((TokenType::Comma, 1))
    } else if c == 46 {
        Some((TokenType::Dot, 1))
    } else if c == 45 {
        Some((TokenType::Minus, 1))
    } else if c == 43 {
        Some((TokenType::Plus, 1))
    } else if c == 59 {
        Some((TokenType::Semicolon, 1))
    } else if c == 42 {
        Some((TokenType::Star, 1))
    } else if c == 47 {
        Some((TokenType::Slash, 1))
    } else if c == 33 {
        if next == 61 {
            Some((TokenType::BangEqual, 2))
        } else {
            Some((TokenType::Bang, 1))
        }
    } else if c == 61 {
        if next == 61 {
            Some((TokenType::EqualEqual, 2))
        } else {
            Some((TokenType::Equal, 1))
        }
    } else if c == 60 {
        if next == 61 {
            Some((TokenType::LessEqual, 2))
        } else {
            Some((TokenType::Less, 1))
        }
    } else if c == 62 {
        if next == 61 {
            Some((TokenType::GreaterEqual, 2))
        } else {
            Some((TokenType::Greater, 1))
        }
    } else {
        None
    }
}

/// The token that starts at `start`, which is not a blank, together with the
/// index after it and the line there.
pub open spec fn token_at(bytes: Seq<u8>, start: int, line: usize) -> (Token, int, usize) {
    if start < 0 || start >= bytes.len() {
        (Token { t_type: TokenType::Eof, start: start as usize, length: 0, line }, start, line)
    } else {
        let c = bytes[start];
        match spec_punctuation(c, byte_at(bytes, start + 1)) {
            Some((t_type, length)) => (
                Token { t_type, start: start as usize, length: length as usize, line },
                start + length,
                line,
            ),
            None => if c == 34 {
                let (close, at) = quote_end(bytes, start + 1, line);
                if close >= bytes.len() {
                    (
                        Token {
                            t_type: TokenType::Error,
                            start: start as usize,
                            length: (bytes.len() - start) as usize,
                            line: at,
                        },
                        bytes.len() as int,
                        at,
                    )
                } else {
                    (
                        Token {
                            t_type: TokenType::Strings,
                            start: start as usize,
                            length: (close + 1 - start) as usize,
                            line: at,
                        },
                        close + 1,
                        at,
                    )
                }
            } else if spec_is_digit(c) {
                (
                    Token {
                        t_type: TokenType::Number,
                        start: start as usize,
                        length: (number_end(bytes, start + 1) - start) as usize,
                        line,
                    },
                    number_end(bytes, start + 1),
                    line,
                )
            } else if spec_is_alphabet(c) {
                let end = word_end(bytes, start + 1);
                (
                    Token {
                        t_type: match spec_keyword(bytes.subrange(start, end)) {
                            Some(keyword) => keyword,
                            None => TokenType::Identifier,
                        },
                        start: start as usize,
                        length: (end - start) as usize,
                        line,
                    },
                    end,
                    line,
                )
            } else {
                (
                    Token { t_type: TokenType::Error, start: start as usize, length: 1, line },
                    start + 1,
                    line,
                )
            },
        }
    }
}

/// The next token from `from` on, the index after it and the line there.
pub open spec fn scan(bytes: Seq<u8>, from: int, line: usize) -> (Token, int, usize) {
    token_at(bytes, blank_end(bytes, from, line, false).0, blank_end(bytes, from, line, false).1)
}

proof fn lemma_digits_end(bytes: Seq<u8>, from: int)
    requires
        0 <= from <= bytes.len(),
    ensures
        from <= digits_end(bytes, from) <= bytes.len(),
    decreases bytes.len() - from,
{
    if from < bytes.len() && spec_is_digit(bytes[from]) {
        lemma_digits_end(bytes, from + 1);
    }
}

proof fn lemma_word_end(bytes: Seq<u8>, from: int)
    requires
        0 <= from <= bytes.len(),
    ensures
        from <= word_end(bytes, from) <= bytes.len(),
    decreases bytes.len() - from,
{
    if from < bytes.len() && (spec_is_alphabet(bytes[from]) || spec_is_digit(bytes[from])) {
        lemma_word_end(bytes, from + 1);
    }
}

proof fn lemma_quote_end(bytes: Seq<u8>, from: int, line: usize)
    requires
        0 <= from <= bytes.len(),
    ensures
        from <= quote_end(bytes, from, line).0 <= bytes.len(),
    decreases bytes.len() - from,
{
    if from < bytes.len() && bytes[from] != 34 {
        lemma_quote_end(
            bytes,
            from + 1,
            if bytes[from] == 10 {
                bump(line)
            } else {
                line
            },
        );
    }
}

proof fn lemma_blank_end(bytes: Seq<u8>, from: int, line: usize, in_comment: bool)
    requires
        0 <= from <= bytes.len(),
    ensures
        from <= blank_end(bytes, from, line, in_comment).0 <= bytes.len(),
    decreases bytes.len() - from, if in_comment { 1int } else { 0int },
{
    if from < bytes.len() {
        if in_comment {
            if bytes[from] == 10 {
                lemma_blank_end(bytes, from, line, false);
            } else {
                lemma_blank_end(bytes, from + 1, line, true);
            }
        } else if bytes[from] == 32 || bytes[from] == 13 || bytes[from] == 9 {
            lemma_blank_end(bytes, from + 1, line, false);
        } else if bytes[from] == 10 {
            lemma_blank_end(bytes, from + 1, bump(line), false);
        } else if bytes[from] == 47 && byte_at(bytes, from + 1) == 47 {
            lemma_blank_end(bytes, from + 2, line, true);
        }
    }
}

/// A token lies within the source and after the place where the scan began;
/// only the token at the end of the source is empty, and that one is `Eof`.
pub proof fn lemma_scan(bytes: Seq<u8>, from: int, line: usize)
    requires
        0 <= from <= bytes.len(),
        bytes.len() <= usize::MAX,
    ensures
        from <= scan(bytes, from, line).0.start,
        scan(bytes, from, line).0.start + scan(bytes, from, line).0.length == scan(
            bytes,
            from,
            line,
        ).1,
        scan(bytes, from, line).1 <= bytes.len(),
        scan(bytes, from, line).0.t_type == TokenType::Eof <==> scan(bytes, from, line).0.start
            == bytes.len(),
        scan(bytes, from, line).0.t_type != TokenType::Eof ==> scan(bytes, from, line).0.length
            > 0,
        scan(bytes, from, line).0.t_type == TokenType::Eof ==> scan(bytes, from, line).0.length
            == 0,
        scan(bytes, from, line).0.line == scan(bytes, from, line).2,
{
    lemma_blank_end(bytes, from, line, false);
    let (start, at) = blank_end(bytes, from, line, false);
    if start < bytes.len() {
        lemma_quote_end(bytes, start + 1, at);
        lemma_digits_end(bytes, start + 1);
        let whole = digits_end(bytes, start + 1);
        if whole + 1 <= bytes.len() {
            lemma_digits_end(bytes, whole + 1);
        }
        lemma_word_end(bytes, start + 1);
        lemma_keyword_kinds(bytes.subrange(start, word_end(bytes, start + 1)));
    }
}

/// A keyword is never the end of the source nor an error.
proof fn lemma_keyword_kinds(word: Seq<u8>)
    ensures
        spec_keyword(word) != Some(TokenType::Eof),
        spec_keyword(word) != Some(TokenType::Error),
{
}

/// Whether the byte is an ASCII digit.
pub fn is_digit(c: u8) -> (digit: bool)
    ensures
        digit == spec_is_digit(c),
{
    c >= 48 && c <= 57
}

/// Whether the byte is an ASCII letter or an underscore.
pub fn is_alphabet(c: u8) -> (letter: bool)
    ensures
        letter == spec_is_alphabet(c),
{
    (c >= 97 && c <= 122) || (c >= 65 && c <= 90) || c == 95
}

/// The keyword that the word is, if it is one.
pub fn keyword(word: &[u8]) -> (found: Option<TokenType>)
    ensures
        found == spec_keyword(word@),
{
    if bytes_equal(word, "and".as_bytes()) {
        Some(TokenType::And)
    } else if bytes_equal(word, "class".as_bytes()) {
        Some(TokenType::Class)
    } else if bytes_equal(word, "else".as_bytes()) {
        Some(TokenType::Else)
    } else if bytes_equal(word, "false".as_bytes()) {
        Some(TokenType::False)
    } else if bytes_equal(word, "for".as_bytes()) {
        Some(TokenType::For)
    } else if bytes_equal(word, "fun".as_bytes()) {
        Some(TokenType::Fun)
    } else if bytes_equal(word, "if".as_bytes()) {
        Some(TokenType::If)
    } else if bytes_equal(word, "nil".as_bytes()) {
        Some(TokenType::Nil)
    } else if bytes_equal(word, "or".as_bytes()) {
        Some(TokenType::Or)
    } else if bytes_equal(word, "print".as_bytes()) {
        Some(TokenType::Print)
    } else if bytes_equal(word, "return".as_bytes()) {
        Some(TokenType::Return)
    } else if bytes_equal(word, "super".as_bytes()) {
        Some(TokenType::Super)
    } else if bytes_equal(word, "this".as_bytes()) {
        Some(TokenType::This)
    } else if bytes_equal(word, "true".as_bytes()) {
        Some(TokenType::True)
    } else if bytes_equal(word, "var".as_bytes()) {
        Some(TokenType::Var)
    } else if bytes_equal(word, "while".as_bytes()) {
        Some(TokenType::While)
    } else {
        None
    }
}

/// The scanner: the source, the start of the token being scanned, the next
/// byte to look at, and the current line.
pub struct Scanner<'bytes> {
    pub bytes: &'bytes [u8],
    pub start: usize,
    pub current: usize,
    pub line: usize,
}

impl<'bytes> Scanner<'bytes> {
    /// The token being scanned lies within the source.
    pub open spec fn wf(&self) -> bool {
        self.start <= self.current <= self.bytes@.len() <= usize::MAX
    }

    /// A scanner at the beginning of `source`, on line 1.
    pub fn new(source: &'bytes [u8]) -> (scanner: Self)
        ensures
            scanner.wf(),
            scanner.bytes@ == source@,
            scanner.start == 0,
            scanner.current == 0,
            scanner.line == 1,
    {
        let length = source.len();
        Scanner { bytes: source, start: 0, current: 0, line: 1 }
    }

    /// Whether the scanner has reached the end of the source.
    pub fn is_end(&self) -> (end: bool)
        requires
            self.wf(),
        ensures
            end == (self.current == self.bytes@.len()),
    {
        self.bytes.len() == self.current
    }

    /// The byte the scanner is at, or 0 at the end.
    pub fn peek(&self) -> (c: u8)
        requires
            self.wf(),
        ensures
            c == byte_at(self.bytes@, self.current as int),
    {
        if self.is_end() {
            0
        } else {
            self.bytes[self.current]
        }
    }

    /// The byte after the one the scanner is at, or 0 beyond the end.
    pub fn peek_next(&self) -> (c: u8)
        requires
            self.wf(),
        ensures
            c == byte_at(self.bytes@, self.current + 1),
    {
        if self.is_end() || self.current + 1 >= self.bytes.len() {
            0
        } else {
            self.bytes[self.current + 1]
        }
    }

    /// Consumes the byte the scanner is at and returns it. The scanner must
    /// not be at the end.
    pub fn next(&mut self) -> (c: u8)
        requires
            old(self).wf(),
            old(self).current < old(self).bytes@.len(),
        ensures
            final(self).wf(),
            c == old(self).bytes@[old(self).current as int],
            final(self).current == old(self).current + 1,
            final(self).bytes == old(self).bytes,
            final(self).start == old(self).start,
            final(self).line == old(self).line,
    {
        self.current += 1;
        self.bytes[self.current - 1]
    }

    /// Consumes the byte the scanner is at when it is `expected`, and says
    /// whether it did.
    pub fn match_type(&mut self, expected: u8) -> (matched: bool)
        requires
            old(self).wf(),
        ensures
            final(self).wf(),
            matched == (old(self).current < old(self).bytes@.len() && old(self).bytes@[old(self).current as int] == expected),
            final(self).current == if matched {
                (old(self).current + 1) as usize
            } else {
                old(self).current
            },
            final(self).bytes == old(self).bytes,
            final(self).start == old(self).start,
            final(self).line == old(self).line,
    {
        if self.is_end() || self.peek() != expected {
            false
        } else {
            self.current += 1;
            true
        }
    }

    /// Skips blanks and comments, counting the line breaks.
    pub fn skip_whitespace(&mut self)
        requires
            old(self).wf(),
        ensures
            final(self).wf(),
            (final(self).current as int, final(self).line) == blank_end(
                old(self).bytes@,
                old(self).current as int,
                old(self).line,
                false,
            ),
            final(self).bytes == old(self).bytes,
            final(self).start == old(self).start,
    {
        let mut in_comment = false;
        loop
            invariant
                self.wf(),
                self.bytes == old(self).bytes,
                self.start == old(self).start,
                blank_end(self.bytes@, self.current as int, self.line, in_comment) == blank_end(
                    old(self).bytes@,
                    old(self).current as int,
                    old(self).line,
                    false,
                ),
            ensures
                self.wf(),
                self.bytes == old(self).bytes,
                self.start == old(self).start,
                (self.current as int, self.line) == blank_end(
                    old(self).bytes@,
                    old(self).current as int,
                    old(self).line,
                    false,
                ),
            decreases self.bytes@.len() - self.current, if in_comment { 1int } else { 0int },
        {
            if self.is_end() {
                break;
            }
            let c = self.bytes[self.current];
            if in_comment {
                if c == 10 {
                    in_comment = false;
                } else {
                    self.current += 1;
                }
            } else if c == 32 || c == 13 || c == 9 {
                self.current += 1;
            } else if c == 10 {
                self.current += 1;
                if self.line < usize::MAX {
                    self.line += 1;
                }
            } else if c == 47 && self.peek_next() == 47 {
                self.current += 2;
                in_comment = true;
            } else {
                break;
            }
        }
    }

    /// The token of kind `t_type` that spans from the start of the token
    /// being scanned to the byte the scanner is at.
    pub fn make_token(&self, t_type: TokenType) -> (token: Token)
        requires
            self.wf(),
        ensures
            token == (Token {
                t_type,
                start: self.start,
                length: (self.current - self.start) as usize,
                line: self.line,
            }),
    {
        Token { t_type, start: self.start, length: self.current - self.start, line: self.line }
    }

    /// The error token that spans from the start of the token being scanned
    /// to the byte the scanner is at.
    pub fn error_token(&self) -> (token: Token)
        requires
            self.wf(),
        ensures
            token == (Token {
                t_type: TokenType::Error,
                start: self.start,
                length: (self.current - self.start) as usize,
                line: self.line,
            }),
    {
        self.make_token(TokenType::Error)
    }

    /// Scans the rest of a number whose first digit is consumed.
    pub fn number(&mut self) -> (token: Token)
        requires
            old(self).wf(),
        ensures
            final(self).wf(),
            final(self).bytes == old(self).bytes,
            final(self).start == old(self).start,
            final(self).line == old(self).line,
            final(self).current == number_end(old(self).bytes@, old(self).current as int),
            token == (Token {
                t_type: TokenType::Number,
                start: final(self).start,
                length: (final(self).current - final(self).start) as usize,
                line: final(self).line,
            }),
    {
        self.digits();
        if self.peek() == 46 && is_digit(self.peek_next()) {
            self.current += 1;
            self.digits();
        }
        self.make_token(TokenType::Number)
    }

    /// Consumes digits.
    fn digits(&mut self)
        requires
            old(self).wf(),
        ensures
            final(self).wf(),
            final(self).bytes == old(self).bytes,
            final(self).start == old(self).start,
            final(self).line == old(self).line,
            final(self).current == digits_end(old(self).bytes@, old(self).current as int),
    {
        while self.current < self.bytes.len() && is_digit(self.bytes[self.current])
            invariant
                self.wf(),
                self.bytes == old(self).bytes,
                self.start == old(self).start,
                self.line == old(self).line,
                digits_end(self.bytes@, self.current as int) == digits_end(
                    old(self).bytes@,
                    old(self).current as int,
                ),
            decreases self.bytes@.len() - self.current,
        {
            self.current += 1;
        }
    }

    /// Scans the rest of a word whose first byte is consumed: a keyword or
    /// an identifier.
    pub fn identifier(&mut self) -> (token: Token)
        requires
            old(self).wf(),
        ensures
            final(self).wf(),
            final(self).bytes == old(self).bytes,
            final(self).start == old(self).start,
            final(self).line == old(self).line,
            final(self).current == word_end(old(self).bytes@, old(self).current as int),
            token == (Token {
                t_type: match spec_keyword(
                    final(self).bytes@.subrange(
                        final(self).start as int,
                        final(self).current as int,
                    ),
                ) {
                    Some(keyword) => keyword,
                    None => TokenType::Identifier,
                },
                start: final(self).start,
                length: (final(self).current - final(self).start) as usize,
                line: final(self).line,
            }),
    {
        while self.current < self.bytes.len() && (is_alphabet(self.bytes[self.current]) || is_digit(
            self.bytes[self.current],
        ))
            invariant
                self.wf(),
                self.bytes == old(self).bytes,
                self.start == old(self).start,
                self.line == old(self).line,
                word_end(self.bytes@, self.current as int) == word_end(
                    old(self).bytes@,
                    old(self).current as int,
                ),
            decreases self.bytes@.len() - self.current,
        {
            self.current += 1;
        }
        let word = vstd::slice::slice_subrange(self.bytes, self.start, self.current);
        match keyword(word) {
            Some(t_type) => self.make_token(t_type),
            None => self.make_token(TokenType::Identifier),
        }
    }

    /// Scans the rest of a string whose opening quote is consumed. A string
    /// without a closing quote is an error token that runs to the end of the
    /// source.
    pub fn string(&mut self) -> (token: Token)
        requires
            old(self).wf(),
        ensures
            final(self).wf(),
            final(self).bytes == old(self).bytes,
            final(self).start == old(self).start,
            final(self).line == quote_end(
                old(self).bytes@,
                old(self).current as int,
                old(self).line,
            ).1,
            quote_end(old(self).bytes@, old(self).current as int, old(self).line).0 >= old(self).bytes@.len() ==> final(self).current == old(self).bytes@.len() && token.t_type
                == TokenType::Error,
            quote_end(old(self).bytes@, old(self).current as int, old(self).line).0 < old(self).bytes@.len() ==> final(self).current == quote_end(
                old(self).bytes@,
                old(self).current as int,
                old(self).line,
            ).0 + 1 && token.t_type == TokenType::Strings,
            token.start == final(self).start,
            token.length == final(self).current - final(self).start,
            token.line == final(self).line,
    {
        while self.current < self.bytes.len() && self.bytes[self.current] != 34
            invariant
                self.wf(),
                self.bytes == old(self).bytes,
                self.start == old(self).start,
                quote_end(self.bytes@, self.current as int, self.line) == quote_end(
                    old(self).bytes@,
                    old(self).current as int,
                    old(self).line,
                ),
            decreases self.bytes@.len() - self.current,
        {
            if self.bytes[self.current] == 10 && self.line < usize::MAX {
                self.line += 1;
            }
            self.current += 1;
        }
        if self.is_end() {
            return self.error_token();
        }
        self.current += 1;
        self.make_token(TokenType::Strings)
    }

    /// Scans the next token.
    pub fn scan_token(&mut self) -> (token: Token)
        requires
            old(self).wf(),
        ensures
            final(self).wf(),
            final(self).bytes == old(self).bytes,
            (token, final(self).current as int, final(self).line) == scan(
                old(self).bytes@,
                old(self).current as int,
                old(self).line,
            ),
            final(self).start == token.start,
    {
        self.skip_whitespace();
        self.start = self.current;
        if self.is_end() {
            return self.make_token(TokenType::Eof);
        }
        let c = self.next();
        if c == 40 {
            self.make_token(TokenType::LeftParen)
        } else if c == 41 {
            self.make_token(TokenType::RightParen)
        } else if c == 123 {
            self.make_token(TokenType::LeftBrace)
        } else if c == 125 {
            self.make_token(TokenType::RightBrace)
        } else if c == 44 {
            self.make_token(TokenType::Comma)
        } else if c == 46 {
            self.make_token(TokenType::Dot)
        } else if c == 45 {
            self.make_token(TokenType::Minus)
        } else if c == 43 {
            self.make_token(TokenType::Plus)
        } else if c == 59 {
            self.make_token(TokenType::Semicolon)
        } else if c == 42 {
            self.make_token(TokenType::Star)
        } else if c == 47 {
            self.make_token(TokenType::Slash)
        } else if c == 33 {
            if self.match_type(61) {
                self.make_token(TokenType::BangEqual)
            } else {
                self.make_token(TokenType::Bang)
            }
        } else if c == 61 {
            if self.match_type(61) {
                self.make_token(TokenType::EqualEqual)
            } else {
                self.make_token(TokenType::Equal)
            }
        } else if c == 60 {
            if self.match_type(61) {
                self.make_token(TokenType::LessEqual)
            } else {
                self.make_token(TokenType::Less)
            }
        } else if c == 62 {
            if self.match_type(61) {
                self.make_token(TokenType::GreaterEqual)
            } else {
                self.make_token(TokenType::Greater)
            }
        } else if c == 34 {
            proof {
                lemma_quote_end(self.bytes@, self.current as int, self.line);
            }
            self.string()
        } else if is_digit(c) {
            proof {
                lemma_digits_end(self.bytes@, self.current as int);
            }
            self.number()
        } else if is_alphabet(c) {
            self.identifier()
        } else {
            self.make_token(TokenType::Error)
        }
    }
}

} // verus!
