//! The scanner: an input buffer and a cursor, from which `next_token` pulls
//! one token at a time.

use vstd::prelude::*;
use vstd::utf8::encode_utf8;
use crate::classes::{is_identifier_part, is_long_suffix, is_number_part, is_whitespace, run_end, Class};
use crate::grammar::{
    dot_count, scan, scan_identifier, scan_number, scan_string, string_tail, unescape, StringState,
    StringTail,
};
use crate::laws::{lemma_eof_only_at_end, lemma_scan_advances};
use crate::text::{lemma_text_push, spell, text};
use crate::token::{lookup_keyword, LexError, Token, TokenView};

verus! {

/// The byte of `s` at index `i`, or 0 where `s` has none.
pub open spec fn byte_at(s: Seq<u8>, i: int) -> u8 {
    if 0 <= i < s.len() {
        s[i]
    } else {
        0
    }
}

/// The value of what `next_token` returns.
pub open spec fn outcome_view(result: Result<Token, LexError>) -> Result<TokenView, LexError> {
    match result {
        Ok(token) => Ok(token@),
        Err(error) => Err(error),
    }
}

/// Whether `result` is the token that marks the end of the input.
pub open spec fn is_eof(result: Result<Token, LexError>) -> bool {
    result == Ok::<Token, LexError>(Token::Eof)
}

/// `tail` with `prefix` put in front of its decoded bytes.
spec fn prefixed(prefix: Seq<u8>, tail: Option<StringTail>) -> Option<StringTail> {
    match tail {
        Some(t) => Some(StringTail { decoded: prefix + t.decoded, end: t.end }),
        None => None,
    }
}

/// Where the scanner stands in its input.
#[derive(Clone, Copy)]
struct Cursor {
    /// Index of the current byte; the length of the input once it is used up.
    position: usize,
    /// Index of the byte that is read next: always one more than `position`.
    read_position: usize,
    /// The current byte; 0 once the input is used up.
    ch: u8,
}

/// A scanner over one source text. It is used up by repeated calls of
/// `next_token`; to scan again, make a new one.
pub struct Lexer {
    input: Vec<u8>,
    cursor: Cursor,
}

impl Lexer {
    #[verifier::type_invariant]
    spec fn well_formed(self) -> bool {
        &&& self.input.len() < usize::MAX
        &&& self.cursor.position <= self.input.len()
        &&& self.cursor.read_position == self.cursor.position + 1
        &&& self.cursor.ch == byte_at(self.input@, self.cursor.position as int)
    }

    /// The bytes of the source text. They never change.
    pub closed spec fn source(&self) -> Seq<u8> {
        self.input@
    }

    /// The index of the current byte: the place where the next scan step begins.
    pub closed spec fn offset(&self) -> int {
        self.cursor.position as int
    }

    /// A scanner at the start of `input`: the cursor is at index 0 and the
    /// byte that is read next at index 1, whatever the length of `input`.
    ///
    /// The input must be shorter than `usize::MAX` bytes, so that the index of
    /// the byte that is read next can always be one more than the cursor.
    pub fn new(input: String) -> (lexer: Lexer)
        requires
            encode_utf8(input@).len() < usize::MAX,
        ensures
            lexer.source() == encode_utf8(input@),
            lexer.offset() == 0,
    {
        let input = input.as_str().as_bytes_vec();
        let ch = if input.len() == 0 {
            0
        } else {
            input[0]
        };
        Lexer { input, cursor: Cursor { position: 0, read_position: 1, ch } }
    }

    /// The index of the current byte.
    pub fn position(&self) -> (position: usize)
        ensures
            position == self.offset(),
            position <= self.source().len() < usize::MAX,
    {
        proof {
            use_type_invariant(self);
        }
        self.cursor.position
    }

    /// The index of the byte that is read next: one more than the cursor, at
    /// the end of the input too.
    pub fn read_position(&self) -> (read_position: usize)
        ensures
            read_position == self.offset() + 1,
    {
        proof {
            use_type_invariant(self);
        }
        self.cursor.read_position
    }

    /// The current byte; 0 once the input is used up.
    pub fn ch(&self) -> (ch: u8)
        ensures
            ch == byte_at(self.source(), self.offset()),
    {
        proof {
            use_type_invariant(self);
        }
        self.cursor.ch
    }

    /// Whether the input is used up.
    fn at_end(&self) -> (ended: bool)
        ensures
            ended == (self.offset() >= self.source().len()),
            0 <= self.offset() <= self.source().len(),
            self.cursor.ch == byte_at(self.source(), self.offset()),
    {
        proof {
            use_type_invariant(self);
        }
        self.cursor.position >= self.input.len()
    }

    /// Moves the cursor one byte on, unless the input is used up.
    fn read_char(&mut self)
        ensures
            final(self).source() == old(self).source(),
            final(self).offset() == if old(self).offset() < old(self).source().len() {
                old(self).offset() + 1
            } else {
                old(self).offset()
            },
            final(self).cursor.ch == byte_at(final(self).source(), final(self).offset()),
            0 <= old(self).offset() <= final(self).offset() <= final(self).source().len(),
    {
        proof {
            use_type_invariant(&*self);
        }
        let length = self.input.len();
        let next = self.cursor.read_position;
        let ch = if next >= length {
            0
        } else {
            self.input[next]
        };
        let position = if next > length {
            length
        } else {
            next
        };
        self.cursor = Cursor { position, read_position: position + 1, ch };
    }

    /// The byte behind the current one, without moving; 0 where there is none.
    fn peek(&self) -> (ahead: u8)
        ensures
            ahead == byte_at(self.source(), self.offset() + 1),
    {
        proof {
            use_type_invariant(self);
        }
        if self.cursor.read_position >= self.input.len() {
            0
        } else {
            self.input[self.cursor.read_position]
        }
    }

    /// Moves the cursor over white space, to the first byte that is none.
    fn skip_whitespace(&mut self)
        ensures
            final(self).source() == old(self).source(),
            final(self).offset() == run_end(old(self).source(), Class::Whitespace, old(self).offset()),
            0 <= old(self).offset() <= final(self).offset() <= final(self).source().len(),
            final(self).cursor.ch == byte_at(final(self).source(), final(self).offset()),
    {
        proof {
            use_type_invariant(&*self);
        }
        while is_whitespace(self.cursor.ch)
            invariant
                self.source() == old(self).source(),
                0 <= old(self).offset() <= self.offset() <= self.source().len(),
                self.cursor.ch == byte_at(self.source(), self.offset()),
                run_end(self.source(), Class::Whitespace, self.offset()) == run_end(
                    old(self).source(),
                    Class::Whitespace,
                    old(self).offset(),
                ),
            decreases self.source().len() - self.offset(),
        {
            self.read_char();
        }
    }

    /// Reads the identifier or reserved word that begins at the cursor and
    /// returns its text.
    fn read_identifier(&mut self) -> (identifier: String)
        ensures
            final(self).source() == old(self).source(),
            final(self).offset() == run_end(
                old(self).source(),
                Class::IdentifierPart,
                old(self).offset(),
            ),
            0 <= old(self).offset() <= final(self).offset() <= final(self).source().len(),
            identifier@ == text(
                old(self).source().subrange(old(self).offset(), final(self).offset()),
            ),
    {
        proof {
            use_type_invariant(&*self);
        }
        let start = self.cursor.position;
        while is_identifier_part(self.cursor.ch)
            invariant
                self.source() == old(self).source(),
                start == old(self).offset(),
                0 <= start <= self.offset() <= self.source().len(),
                self.cursor.ch == byte_at(self.source(), self.offset()),
                run_end(self.source(), Class::IdentifierPart, self.offset()) == run_end(
                    old(self).source(),
                    Class::IdentifierPart,
                    old(self).offset(),
                ),
            decreases self.source().len() - self.offset(),
        {
            self.read_char();
        }
        proof {
            use_type_invariant(&*self);
        }
        spell(&self.input, start, self.cursor.position)
    }

    /// Reads the numeric literal that begins at the cursor.
    fn read_number(&mut self) -> (result: Result<Token, LexError>)
        ensures
            final(self).source() == old(self).source(),
            final(self).offset() == scan_number(old(self).source(), old(self).offset()).end,
            outcome_view(result) == scan_number(old(self).source(), old(self).offset()).outcome,
            0 <= old(self).offset() <= final(self).offset() <= final(self).source().len(),
    {
        proof {
            use_type_invariant(&*self);
        }
        let start = self.cursor.position;
        let mut dots: usize = 0;
        while is_number_part(self.cursor.ch)
            invariant
                self.source() == old(self).source(),
                start == old(self).offset(),
                0 <= start <= self.offset() <= self.source().len(),
                self.cursor.ch == byte_at(self.source(), self.offset()),
                run_end(self.source(), Class::NumberPart, self.offset()) == run_end(
                    old(self).source(),
                    Class::NumberPart,
                    old(self).offset(),
                ),
                dots == dot_count(self.source(), start as int, self.offset()),
                dots <= self.offset() - start,
            decreases self.source().len() - self.offset(),
        {
            if self.cursor.ch == '.' as u8 {
                assert(dots < self.input.len());
                dots += 1;
            }
            self.read_char();
        }
        if is_long_suffix(self.cursor.ch) {
            self.read_char();
        }
        if dots > 1 {
            return Err(LexError::NumberFormat);
        }
        proof {
            use_type_invariant(&*self);
        }
        let digits = spell(&self.input, start, self.cursor.position);
        if dots == 1 {
            Ok(Token::FloatLiteral(digits))
        } else {
            Ok(Token::IntLiteral(digits))
        }
    }

    /// Reads the string literal whose opening quote is at the cursor and
    /// returns its decoded text.
    fn read_string(&mut self) -> (result: Result<String, LexError>)
        ensures
            final(self).source() == old(self).source(),
            final(self).offset() == scan_string(old(self).source(), old(self).offset()).end,
            match result {
                Ok(decoded) => scan_string(old(self).source(), old(self).offset()).outcome == Ok::<
                    TokenView,
                    LexError,
                >(TokenView::StringLiteral(decoded@)),
                Err(error) => scan_string(old(self).source(), old(self).offset()).outcome == Err::<
                    TokenView,
                    LexError,
                >(error),
            },
            0 <= old(self).offset() <= final(self).offset() <= final(self).source().len(),
    {
        let ghost start = self.offset();
        self.read_char();
        let mut literal = String::new();
        let mut state = StringState::Normal;
        let ghost mut decoded: Seq<u8> = Seq::empty();
        assert(prefixed(decoded, string_tail(self.source(), self.offset(), state)) == string_tail(
            self.source(),
            start + 1,
            state,
        )) by {
            let tail = string_tail(self.source(), self.offset(), state);
            if tail is Some {
                assert(decoded + tail->0.decoded =~= tail->0.decoded);
            }
        }
        loop
            invariant
                self.source() == old(self).source(),
                start == old(self).offset(),
                0 <= start <= self.offset() <= self.source().len(),
                self.cursor.ch == byte_at(self.source(), self.offset()),
                literal@ == text(decoded),
                prefixed(decoded, string_tail(self.source(), self.offset(), state)) == string_tail(
                    self.source(),
                    start + 1,
                    StringState::Normal,
                ),
            decreases self.source().len() - self.offset(),
        {
            if self.at_end() {
                return Err(LexError::UnterminatedString);
            }
            let b = self.cursor.ch;
            let ghost tail = string_tail(self.source(), self.offset() + 1, StringState::Normal);
            match state {
                StringState::Escape => {
                    proof {
                        lemma_text_push(decoded, unescape(b));
                        if tail is Some {
                            assert(decoded + (seq![unescape(b)] + tail->0.decoded) =~= decoded.push(
                                unescape(b),
                            ) + tail->0.decoded);
                        }
                        decoded = decoded.push(unescape(b));
                    }
                    literal.push(unescape(b) as char);
                    state = StringState::Normal;
                },
                StringState::Normal => {
                    if b == '"' as u8 {
                        self.read_char();
                        assert(decoded + Seq::<u8>::empty() =~= decoded);
                        return Ok(literal);
                    } else if b == '\\' as u8 {
                        state = StringState::Escape;
                    } else {
                        proof {
                            lemma_text_push(decoded, b);
                            if tail is Some {
                                assert(decoded + (seq![b] + tail->0.decoded) =~= decoded.push(b)
                                    + tail->0.decoded);
                            }
                            decoded = decoded.push(b);
                        }
                        literal.push(b as char);
                    }
                },
            }
            self.read_char();
        }
    }

    /// Scans the next token: passes over white space, then yields `Eof` if the
    /// input is used up, and else the token that begins at the cursor, moving
    /// the cursor behind it. A literal that cannot be formed is an error, and
    /// the cursor moves behind it all the same.
    pub fn next_token(&mut self) -> (result: Result<Token, LexError>)
        ensures
            final(self).source() == old(self).source(),
            final(self).offset() == scan(old(self).source(), old(self).offset()).end,
            outcome_view(result) == scan(old(self).source(), old(self).offset()).outcome,
            old(self).offset() <= final(self).offset() <= final(self).source().len(),
            is_eof(result) <==> run_end(old(self).source(), Class::Whitespace, old(self).offset())
                == old(self).source().len(),
            is_eof(result) ==> final(self).offset() == final(self).source().len(),
            !is_eof(result) ==> old(self).offset() < final(self).offset(),
    {
        proof {
            use_type_invariant(&*self);
            lemma_scan_advances(self.source(), self.offset());
            lemma_eof_only_at_end(self.source(), self.offset());
        }
        self.skip_whitespace();
        if self.at_end() {
            return Ok(Token::Eof);
        }
        let token = match self.cursor.ch as char {
            '+' => {
                if self.peek() == '+' as u8 {
                    self.read_char();
                    Token::Increment
                } else {
                    Token::Plus
                }
            },
            '-' => {
                if self.peek() == '-' as u8 {
                    self.read_char();
                    Token::Decrement
                } else {
                    Token::Minus
                }
            },
            '*' => Token::Multiply,
            '/' => Token::Divide,
            '%' => Token::Modulo,
            '!' => {
                if self.peek() == '=' as u8 {
                    self.read_char();
                    Token::NotEqual
                } else {
                    Token::Not
                }
            },
            '<' => {
                if self.peek() == '=' as u8 {
                    self.read_char();
                    Token::LessThanOrEqual
                } else if self.peek() == '<' as u8 {
                    self.read_char();
                    Token::LeftShift
                } else {
                    Token::LessThan
                }
            },
            '>' => {
                if self.peek() == '=' as u8 {
                    self.read_char();
                    Token::GreaterThanOrEqual
                } else if self.peek() == '>' as u8 {
                    self.read_char();
                    Token::RightShift
                } else {
                    Token::GreaterThan
                }
            },
            '=' => {
                if self.peek() == '=' as u8 {
                    self.read_char();
                    Token::Equal
                } else {
                    Token::Assignment
                }
            },
            '&' => {
                if self.peek() == '&' as u8 {
                    self.read_char();
                    Token::And
                } else {
                    Token::Illegal
                }
            },
            '|' => {
                if self.peek() == '|' as u8 {
                    self.read_char();
                    Token::Or
                } else {
                    Token::Illegal
                }
            },
            '#' => Token::Hash,
            '(' => Token::LParen,
            ')' => Token::RParen,
            '[' => Token::LBracket,
            ']' => Token::RBracket,
            '{' => Token::LBrace,
            '}' => Token::RBrace,
            ',' => Token::Comma,
            '.' => Token::Dot,
            ';' => Token::Semicolon,
            '"' => {
                return match self.read_string() {
                    Ok(decoded) => Ok(Token::StringLiteral(decoded)),
                    Err(error) => Err(error),
                };
            },
            '0'..='9' => {
                return self.read_number();
            },
            'a'..='z' | 'A'..='Z' | '_' => {
                let identifier = self.read_identifier();
                return Ok(
                    match lookup_keyword(identifier.as_str()) {
                        Some(word) => word,
                        None => Token::Identifier(identifier),
                    },
                );
            },
            _ => Token::Illegal,
        };
        self.read_char();
        Ok(token)
    }
}

} // verus!
