use lexer::token::{LexError, Token};
use lexer::Lexer;

// `>` and `=` stand side by side in this input, so they are one operator.
#[test]
fn test_basic_operators() -> Result<(), LexError> {
    let input: &str = "+-*/%!<>=#";
    let mut lexer: Lexer = Lexer::new(input.into());
    let tokens: [Token; 10] = [
        Token::Plus,
        Token::Minus,
        Token::Multiply,
        Token::Divide,
        Token::Modulo,
        Token::Not,
        Token::LessThan,
        Token::GreaterThanOrEqual,
        Token::Hash,
        Token::Eof,
    ];

    for token in tokens {
        let next_token = lexer.next_token()?;
        println!("expected: {:?}, received {:?}", token, next_token);
        assert_eq!(token, next_token);
    }

    return Ok(());
}

#[test]
fn test_ints_longs_arithmetic() -> Result<(), LexError> {
    let input = "5 + 10 - 15 * 20 / 25 % 30";
    let mut lexer = Lexer::new(input.into());

    let tokens = [
        Token::IntLiteral(String::from("5")),
        Token::Plus,
        Token::IntLiteral(String::from("10")),
        Token::Minus,
        Token::IntLiteral(String::from("15")),
        Token::Multiply,
        Token::IntLiteral(String::from("20")),
        Token::Divide,
        Token::IntLiteral(String::from("25")),
        Token::Modulo,
        Token::IntLiteral(String::from("30")),
        Token::Eof,
    ];

    for token in tokens {
        let next_token = lexer.next_token()?;
        println!("expected: {:?}, received {:?}", token, next_token);
        assert_eq!(token, next_token);
    }

    return Ok(());
}

#[test]
fn test_if_statement() -> Result<(), LexError> {
    let input = "if (5 < 10) { return true; } else { return false; }";
    let mut lexer = Lexer::new(input.into());

    let tokens = [
        Token::If,
        Token::LParen,
        Token::IntLiteral(String::from("5")),
        Token::LessThan,
        Token::IntLiteral(String::from("10")),
        Token::RParen,
        Token::LBrace,
        Token::Return,
        Token::True,
        Token::Semicolon,
        Token::RBrace,
        Token::Else,
        Token::LBrace,
        Token::Return,
        Token::False,
        Token::Semicolon,
        Token::RBrace,
        Token::Eof,
    ];

    for token in tokens {
        let next_token = lexer.next_token()?;
        println!("expected: {:?}, received {:?}", token, next_token);
        assert_eq!(token, next_token);
    }

    return Ok(());
}

#[test]
fn test_string() -> Result<(), LexError> {
    let input = "test = \"Saketh\"";
    let mut lexer = Lexer::new(input.into());

    let tokens = [
        Token::Identifier(String::from("test")),
        Token::Assignment,
        Token::StringLiteral(String::from("Saketh")),
        Token::Eof,
    ];

    for token in tokens {
        let next_token = lexer.next_token()?;
        println!("expected: {:?}, received {:?}", token, next_token);
        assert_eq!(token, next_token);
    }

    return Ok(());
}

// The quote behind `dq ` stands in the input without a backslash, so it closes
// the literal there. What follows is scanned as ordinary tokens, and the quote
// at the very end opens a literal that is never closed.
#[test]
fn test_string_escape_sequences() {
    let input = "test = \"dq \" bs \\ ab \\a bsp \\b nl \n tab \t ff \\f cr \r\"";
    let mut lexer = Lexer::new(input.into());

    let tokens = [
        Ok(Token::Identifier(String::from("test"))),
        Ok(Token::Assignment),
        Ok(Token::StringLiteral(String::from("dq "))),
        Ok(Token::Identifier(String::from("bs"))),
        Ok(Token::Illegal),
        Ok(Token::Identifier(String::from("ab"))),
        Ok(Token::Illegal),
        Ok(Token::Identifier(String::from("a"))),
        Ok(Token::Identifier(String::from("bsp"))),
        Ok(Token::Illegal),
        Ok(Token::Identifier(String::from("b"))),
        Ok(Token::Identifier(String::from("nl"))),
        Ok(Token::Identifier(String::from("tab"))),
        Ok(Token::Identifier(String::from("ff"))),
        Ok(Token::Illegal),
        Ok(Token::Identifier(String::from("f"))),
        Ok(Token::Identifier(String::from("cr"))),
        Err(LexError::UnterminatedString),
        Ok(Token::Eof),
    ];

    for token in tokens {
        let next_token = lexer.next_token();
        println!("expected: {:?}, received {:?}", token, next_token);
        assert_eq!(token, next_token);
    }
}

// The ten operators of the input above, each for itself.
#[test]
fn test_basic_operators_apart() -> Result<(), LexError> {
    let input: &str = "+ - * / % ! < > = #";
    let mut lexer: Lexer = Lexer::new(input.into());
    let tokens: [Token; 10] = [
        Token::Plus,
        Token::Minus,
        Token::Multiply,
        Token::Divide,
        Token::Modulo,
        Token::Not,
        Token::LessThan,
        Token::GreaterThan,
        Token::Assignment,
        Token::Hash,
    ];

    for token in tokens {
        let next_token = lexer.next_token()?;
        println!("expected: {:?}, received {:?}", token, next_token);
        assert_eq!(token, next_token);
    }

    return Ok(());
}

// The same text with its quote and backslashes escaped in the source: the
// literal then runs to the last quote and decodes to the text above.
#[test]
fn test_string_escape_sequences_escaped_in_source() -> Result<(), LexError> {
    let input = "test = \"dq \\\" bs \\\\ ab \\\\a bsp \\\\b nl \n tab \t ff \\\\f cr \r\"";
    let mut lexer = Lexer::new(input.into());

    let tokens = [
        Token::Identifier(String::from("test")),
        Token::Assignment,
        Token::StringLiteral(String::from(
            "dq \" bs \\ ab \\a bsp \\b nl \n tab \t ff \\f cr \r",
        )),
        Token::Eof,
    ];

    for token in tokens {
        let next_token = lexer.next_token()?;
        println!("expected: {:?}, received {:?}", token, next_token);
        assert_eq!(token, next_token);
    }

    return Ok(());
}
