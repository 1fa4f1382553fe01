//! The token vocabulary of the language and its table of reserved words.

use vstd::prelude::*;
use vstd::utf8::*;

verus! {

/// One lexical unit. Literal variants carry their text; every other variant is
/// fully described by its tag.
#[derive(PartialEq, Debug)]
pub enum Token {
    // Keywords
    If,
    Else,
    While,
    For,
    Struct,
    Break,
    Continue,
    Return,
    New,
    // Literals
    True,
    False,
    Null,
    /// A name, as it is written.
    Identifier(String),
    /// A whole number, as it is written; it ends in `l` or `L` if it is long.
    IntLiteral(String),
    /// A number with one `.`, as it is written; it ends in `l` or `L` if it is
    /// long.
    FloatLiteral(String),
    /// The text that a string literal stands for, its escape sequences decoded
    /// and its quotes left out.
    StringLiteral(String),
    // Operators
    Plus,
    Minus,
    Multiply,
    Divide,
    Modulo,
    Or,
    And,
    Not,
    LessThan,
    GreaterThan,
    LessThanOrEqual,
    GreaterThanOrEqual,
    Equal,
    NotEqual,
    Assignment,
    Increment,
    Decrement,
    Hash,
    LeftShift,
    RightShift,
    // Delimiters
    LParen,
    RParen,
    LBracket,
    RBracket,
    LBrace,
    RBrace,
    Comma,
    Dot,
    Semicolon,
    // Special
    /// A byte that begins no token.
    Illegal,
    /// The end of the input.
    Eof,
}

/// The mathematical value of a [`Token`]: the same variants, with the text of a
/// literal as a sequence of characters.
pub enum TokenView {
    If,
    Else,
    While,
    For,
    Struct,
    Break,
    Continue,
    Return,
    New,
    True,
    False,
    Null,
    Identifier(Seq<char>),
    IntLiteral(Seq<char>),
    FloatLiteral(Seq<char>),
    StringLiteral(Seq<char>),
    Plus,
    Minus,
    Multiply,
    Divide,
    Modulo,
    Or,
    And,
    Not,
    LessThan,
    GreaterThan,
    LessThanOrEqual,
    GreaterThanOrEqual,
    Equal,
    NotEqual,
    Assignment,
    Increment,
    Decrement,
    Hash,
    LeftShift,
    RightShift,
    LParen,
    RParen,
    LBracket,
    RBracket,
    LBrace,
    RBrace,
    Comma,
    Dot,
    Semicolon,
    Illegal,
    Eof,
}

impl View for Token {
    type V = TokenView;

    open spec fn view(&self) -> TokenView {
        match *self {
            Token::If => TokenView::If,
            Token::Else => TokenView::Else,
            Token::While => TokenView::While,
            Token::For => TokenView::For,
            Token::Struct => TokenView::Struct,
            Token::Break => TokenView::Break,
            Token::Continue => TokenView::Continue,
            Token::Return => TokenView::Return,
            Token::New => TokenView::New,
            Token::True => TokenView::True,
            Token::False => TokenView::False,
            Token::Null => TokenView::Null,
            Token::Identifier(text) => TokenView::Identifier(text@),
            Token::IntLiteral(text) => TokenView::IntLiteral(text@),
            Token::FloatLiteral(text) => TokenView::FloatLiteral(text@),
            Token::StringLiteral(text) => TokenView::StringLiteral(text@),
            Token::Plus => TokenView::Plus,
            Token::Minus => TokenView::Minus,
            Token::Multiply => TokenView::Multiply,
            Token::Divide => TokenView::Divide,
            Token::Modulo => TokenView::Modulo,
            Token::Or => TokenView::Or,
            Token::And => TokenView::And,
            Token::Not => TokenView::Not,
            Token::LessThan => TokenView::LessThan,
            Token::GreaterThan => TokenView::GreaterThan,
            Token::LessThanOrEqual => TokenView::LessThanOrEqual,
            Token::GreaterThanOrEqual => TokenView::GreaterThanOrEqual,
            Token::Equal => TokenView::Equal,
            Token::NotEqual => TokenView::NotEqual,
            Token::Assignment => TokenView::Assignment,
            Token::Increment => TokenView::Increment,
            Token::Decrement => TokenView::Decrement,
            Token::Hash => TokenView::Hash,
            Token::LeftShift => TokenView::LeftShift,
            Token::RightShift => TokenView::RightShift,
            Token::LParen => TokenView::LParen,
            Token::RParen => TokenView::RParen,
            Token::LBracket => TokenView::LBracket,
            Token::RBracket => TokenView::RBracket,
            Token::LBrace => TokenView::LBrace,
            Token::RBrace => TokenView::RBrace,
            Token::Comma => TokenView::Comma,
            Token::Dot => TokenView::Dot,
            Token::Semicolon => TokenView::Semicolon,
            Token::Illegal => TokenView::Illegal,
            Token::Eof => TokenView::Eof,
        }
    }
}

/// Why a literal could not be formed.
#[derive(PartialEq, Eq, Clone, Copy, Debug)]
pub enum LexError {
    /// The input ended inside a string literal.
    UnterminatedString,
    /// A numeric literal holds more than one `.`.
    NumberFormat,
}

/// The reserved word spelled exactly `text`, if there is one. Spellings are
/// case-sensitive and must match the whole of `text`.
pub open spec fn keyword(text: Seq<char>) -> Option<TokenView> {
    if text == "if"@ {
        Some(TokenView::If)
    } else if text == "else"@ {
        Some(TokenView::Else)
    } else if text == "while"@ {
        Some(TokenView::While)
    } else if text == "for"@ {
        Some(TokenView::For)
    } else if text == "struct"@ {
        Some(TokenView::Struct)
    } else if text == "break"@ {
        Some(TokenView::Break)
    } else if text == "continue"@ {
        Some(TokenView::Continue)
    } else if text == "return"@ {
        Some(TokenView::Return)
    } else if text == "new"@ {
        Some(TokenView::New)
    } else if text == "true"@ {
        Some(TokenView::True)
    } else if text == "false"@ {
        Some(TokenView::False)
    } else if text == "null"@ {
        Some(TokenView::Null)
    } else {
        None
    }
}

/// What a run of identifier characters stands for: its reserved word, or an
/// identifier with that text.
pub open spec fn resolve_identifier(text: Seq<char>) -> TokenView {
    match keyword(text) {
        Some(word) => word,
        None => TokenView::Identifier(text),
    }
}

/// Whether two string slices hold the same characters.
fn same_text(a: &str, b: &str) -> (same: bool)
    ensures
        same == (a@ == b@),
{
    let x = a.as_bytes();
    let y = b.as_bytes();
    proof {
        encode_utf8_decode_utf8(a@);
        encode_utf8_decode_utf8(b@);
    }
    if x.len() != y.len() {
        return false;
    }
    let mut i: usize = 0;
    while i < x.len()
        invariant
            i <= x.len(),
            x.len() == y.len(),
            x@ == encode_utf8(a@),
            y@ == encode_utf8(b@),
            forall|k: int| 0 <= k < i ==> x@[k] == y@[k],
        decreases x.len() - i,
    {
        if x[i] != y[i] {
            return false;
        }
        i += 1;
    }
    assert(x@ =~= y@);
    true
}

/// Looks `text` up in the table of reserved words.
pub fn lookup_keyword(text: &str) -> (found: Option<Token>)
    ensures
        match found {
            Some(word) => keyword(text@) == Some(word@),
            None => keyword(text@) is None,
        },
{
    if same_text(text, "if") {
        Some(Token::If)
    } else if same_text(text, "else") {
        Some(Token::Else)
    } else if same_text(text, "while") {
        Some(Token::While)
    } else if same_text(text, "for") {
        Some(Token::For)
    } else if same_text(text, "struct") {
        Some(Token::Struct)
    } else if same_text(text, "break") {
        Some(Token::Break)
    } else if same_text(text, "continue") {
        Some(Token::Continue)
    } else if same_text(text, "return") {
        Some(Token::Return)
    } else if same_text(text, "new") {
        Some(Token::New)
    } else if same_text(text, "true") {
        Some(Token::True)
    } else if same_text(text, "false") {
        Some(Token::False)
    } else if same_text(text, "null") {
        Some(Token::Null)
    } else {
        None
    }
}

} // verus!
