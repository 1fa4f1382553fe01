//! The lexical grammar: what one scan step yields from a given position of the
//! input, as a mathematical function of the input bytes.

use vstd::prelude::*;
use crate::classes::{is_digit, is_identifier_start, is_long_suffix, run_end, Class};
use crate::text::text;
use crate::token::{resolve_identifier, LexError, TokenView};

verus! {

/// What one scan step yields: a token or the failure to form a literal, and
/// the position at which the next step begins.
pub struct Scan {
    pub outcome: Result<TokenView, LexError>,
    pub end: int,
}

/// The two states of the scan of a string literal.
#[derive(PartialEq, Eq, Clone, Copy, Debug, Structural)]
pub enum StringState {
    /// Between escape sequences.
    Normal,
    /// Directly behind a backslash.
    Escape,
}

/// The byte that the escape sequence `\b` stands for. A byte without a
/// meaning of its own stands for itself, so `\"` is a quote and `\\` a backslash.
pub open spec fn spec_unescape(b: u8) -> u8 {
    if b == 'n' as u8 {
        '\n' as u8
    } else if b == 't' as u8 {
        '\t' as u8
    } else if b == 'r' as u8 {
        '\r' as u8
    } else if b == 'b' as u8 {
        0x08
    } else if b == 'f' as u8 {
        0x0c
    } else {
        b
    }
}

#[verifier::when_used_as_spec(spec_unescape)]
pub fn unescape(b: u8) -> (decoded: u8)
    ensures
        decoded == spec_unescape(b),
{
    if b == 'n' as u8 {
        '\n' as u8
    } else if b == 't' as u8 {
        '\t' as u8
    } else if b == 'r' as u8 {
        '\r' as u8
    } else if b == 'b' as u8 {
        0x08
    } else if b == 'f' as u8 {
        0x0c
    } else {
        b
    }
}

/// The rest of a string literal, decoded.
pub struct StringTail {
    /// The bytes that the rest of the body stands for.
    pub decoded: Seq<u8>,
    /// The position just behind the closing quote.
    pub end: int,
}

/// `tail` with `b` put in front of its decoded bytes.
pub open spec fn preceded_by(b: u8, tail: Option<StringTail>) -> Option<StringTail> {
    match tail {
        Some(t) => Some(StringTail { decoded: seq![b] + t.decoded, end: t.end }),
        None => None,
    }
}

/// Reads the body of a string literal from position `i` on, in state `state`.
/// `None` if the input ends before an unescaped quote closes the literal.
pub open spec fn string_tail(s: Seq<u8>, i: int, state: StringState) -> Option<StringTail>
    decreases s.len() - i,
{
    if i < 0 || i >= s.len() {
        None
    } else if state == StringState::Escape {
        preceded_by(unescape(s[i]), string_tail(s, i + 1, StringState::Normal))
    } else if s[i] == '"' as u8 {
        Some(StringTail { decoded: Seq::empty(), end: i + 1 })
    } else if s[i] == '\\' as u8 {
        string_tail(s, i + 1, StringState::Escape)
    } else {
        preceded_by(s[i], string_tail(s, i + 1, StringState::Normal))
    }
}

/// The number of `.` among `s[from..to]`.
pub open spec fn dot_count(s: Seq<u8>, from: int, to: int) -> nat
    decreases to - from,
{
    if from >= to {
        0
    } else {
        dot_count(s, from, to - 1) + if s[to - 1] == '.' as u8 { 1nat } else { 0nat }
    }
}

/// The operator that the two bytes `a`, `b` spell together, if any.
pub open spec fn pair_operator(a: u8, b: u8) -> Option<TokenView> {
    if a == '=' as u8 && b == '=' as u8 {
        Some(TokenView::Equal)
    } else if a == '!' as u8 && b == '=' as u8 {
        Some(TokenView::NotEqual)
    } else if a == '<' as u8 && b == '=' as u8 {
        Some(TokenView::LessThanOrEqual)
    } else if a == '>' as u8 && b == '=' as u8 {
        Some(TokenView::GreaterThanOrEqual)
    } else if a == '&' as u8 && b == '&' as u8 {
        Some(TokenView::And)
    } else if a == '|' as u8 && b == '|' as u8 {
        Some(TokenView::Or)
    } else if a == '+' as u8 && b == '+' as u8 {
        Some(TokenView::Increment)
    } else if a == '-' as u8 && b == '-' as u8 {
        Some(TokenView::Decrement)
    } else if a == '<' as u8 && b == '<' as u8 {
        Some(TokenView::LeftShift)
    } else if a == '>' as u8 && b == '>' as u8 {
        Some(TokenView::RightShift)
    } else {
        None
    }
}

/// The token that the byte `a` spells alone; `Illegal` if it spells none.
pub open spec fn single_token(a: u8) -> TokenView {
    if a == '+' as u8 {
        TokenView::Plus
    } else if a == '-' as u8 {
        TokenView::Minus
    } else if a == '*' as u8 {
        TokenView::Multiply
    } else if a == '/' as u8 {
        TokenView::Divide
    } else if a == '%' as u8 {
        TokenView::Modulo
    } else if a == '!' as u8 {
        TokenView::Not
    } else if a == '<' as u8 {
        TokenView::LessThan
    } else if a == '>' as u8 {
        TokenView::GreaterThan
    } else if a == '=' as u8 {
        TokenView::Assignment
    } else if a == '#' as u8 {
        TokenView::Hash
    } else if a == '(' as u8 {
        TokenView::LParen
    } else if a == ')' as u8 {
        TokenView::RParen
    } else if a == '[' as u8 {
        TokenView::LBracket
    } else if a == ']' as u8 {
        TokenView::RBracket
    } else if a == '{' as u8 {
        TokenView::LBrace
    } else if a == '}' as u8 {
        TokenView::RBrace
    } else if a == ',' as u8 {
        TokenView::Comma
    } else if a == '.' as u8 {
        TokenView::Dot
    } else if a == ';' as u8 {
        TokenView::Semicolon
    } else {
        TokenView::Illegal
    }
}

/// A numeric literal that begins at `start`: the longest run of digits and
/// dots, then a long suffix if one follows at once. The text keeps the suffix.
/// One dot makes a float, none an integer, more are an error; the whole
/// literal is consumed in each case.
pub open spec fn scan_number(s: Seq<u8>, start: int) -> Scan {
    let body_end = run_end(s, Class::NumberPart, start);
    let end = if body_end < s.len() && is_long_suffix(s[body_end]) {
        body_end + 1
    } else {
        body_end
    };
    let dots = dot_count(s, start, body_end);
    let digits = text(s.subrange(start, end));
    Scan {
        outcome: if dots == 0 {
            Ok(TokenView::IntLiteral(digits))
        } else if dots == 1 {
            Ok(TokenView::FloatLiteral(digits))
        } else {
            Err(LexError::NumberFormat)
        },
        end,
    }
}

/// An identifier or reserved word that begins at `start`: the longest run of
/// letters, digits and underscores, resolved as a whole.
pub open spec fn scan_identifier(s: Seq<u8>, start: int) -> Scan {
    let end = run_end(s, Class::IdentifierPart, start);
    Scan { outcome: Ok(resolve_identifier(text(s.subrange(start, end)))), end }
}

/// A string literal whose opening quote is at `start`. An unterminated literal
/// consumes the rest of the input.
pub open spec fn scan_string(s: Seq<u8>, start: int) -> Scan {
    match string_tail(s, start + 1, StringState::Normal) {
        Some(tail) => Scan {
            outcome: Ok(TokenView::StringLiteral(text(tail.decoded))),
            end: tail.end,
        },
        None => Scan { outcome: Err(LexError::UnterminatedString), end: s.len() as int },
    }
}

/// An operator, a delimiter or an illegal byte at `start`: two bytes where
/// they spell an operator together, else one.
pub open spec fn scan_symbol(s: Seq<u8>, start: int) -> Scan {
    if start + 1 < s.len() && pair_operator(s[start], s[start + 1]) is Some {
        Scan { outcome: Ok(pair_operator(s[start], s[start + 1])->0), end: start + 2 }
    } else {
        Scan { outcome: Ok(single_token(s[start])), end: start + 1 }
    }
}

/// The token that begins at `start`, a position that holds a byte other than
/// white space.
pub open spec fn scan_token(s: Seq<u8>, start: int) -> Scan {
    if is_digit(s[start]) {
        scan_number(s, start)
    } else if is_identifier_start(s[start]) {
        scan_identifier(s, start)
    } else if s[start] == '"' as u8 {
        scan_string(s, start)
    } else {
        scan_symbol(s, start)
    }
}

/// One scan step from position `pos`: white space is passed over, then the
/// input has ended or a token begins.
pub open spec fn scan(s: Seq<u8>, pos: int) -> Scan {
    let start = run_end(s, Class::Whitespace, pos);
    if start >= s.len() {
        Scan { outcome: Ok(TokenView::Eof), end: start }
    } else {
        scan_token(s, start)
    }
}

} // verus!
