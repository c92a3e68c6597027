//! Tokens of the language and the keyword table.
//!
//! A token is one lexical unit: an identifier or integer literal, an operator,
//! a delimiter, a keyword, or one of the two sentinels (illegal character,
//! end of input). Tokens are immutable values; `TokenV` is their mathematical
//! model, with the identifier text as a `Seq<char>` and the literal value as
//! an `int`.

use vstd::prelude::*;

verus! {

/// The mathematical model of a token, used in all contracts.
pub ghost enum TokenV {
    Illegal,
    Eof,
    Ident(Seq<char>),
    Int(int),
    Assign,
    Plus,
    Minus,
    Bang,
    Asterisk,
    Slash,
    Equal,
    NotEqual,
    LessThan,
    GreaterThan,
    Comma,
    Semicolon,
    LParen,
    RParen,
    LBrace,
    RBrace,
    Function,
    Let,
    True,
    False,
    If,
    Else,
    Return,
}

/// One lexical unit of the source text.
#[derive(Debug, PartialEq, Eq)]
pub enum Token {
    ILLEGAL,
    EOF,
    IDENT(String),
    INT(i64),
    ASSIGN,
    PLUS,
    MINUS,
    BANG,
    ASTERISK,
    SLASH,
    EQ,
    NotEq,
    LT,
    GT,
    COMMA,
    SEMICOLON,
    LPAREN,
    RPAREN,
    LBRACE,
    RBRACE,
    FUNCTION,
    LET,
    TRUE,
    FALSE,
    IF,
    ELSE,
    RETURN,
}

impl View for Token {
    type V = TokenV;

    open spec fn view(&self) -> TokenV {
        match self {
            Token::ILLEGAL => TokenV::Illegal,
            Token::EOF => TokenV::Eof,
            Token::IDENT(s) => TokenV::Ident(s@),
            Token::INT(n) => TokenV::Int(*n as int),
            Token::ASSIGN => TokenV::Assign,
            Token::PLUS => TokenV::Plus,
            Token::MINUS => TokenV::Minus,
            Token::BANG => TokenV::Bang,
            Token::ASTERISK => TokenV::Asterisk,
            Token::SLASH => TokenV::Slash,
            Token::EQ => TokenV::Equal,
            Token::NotEq => TokenV::NotEqual,
            Token::LT => TokenV::LessThan,
            Token::GT => TokenV::GreaterThan,
            Token::COMMA => TokenV::Comma,
            Token::SEMICOLON => TokenV::Semicolon,
            Token::LPAREN => TokenV::LParen,
            Token::RPAREN => TokenV::RParen,
            Token::LBRACE => TokenV::LBrace,
            Token::RBRACE => TokenV::RBrace,
            Token::FUNCTION => TokenV::Function,
            Token::LET => TokenV::Let,
            Token::TRUE => TokenV::True,
            Token::FALSE => TokenV::False,
            Token::IF => TokenV::If,
            Token::ELSE => TokenV::Else,
            Token::RETURN => TokenV::Return,
        }
    }
}

/// The reserved words of the language.
pub open spec fn is_keyword(s: Seq<char>) -> bool {
    ||| s == "fn"@
    ||| s == "let"@
    ||| s == "true"@
    ||| s == "false"@
    ||| s == "if"@
    ||| s == "else"@
    ||| s == "return"@
}

/// What the keyword table answers for an identifier-shaped run of text:
/// the dedicated keyword token on an exact, case-sensitive match, and a
/// generic identifier token carrying the text itself otherwise.
pub open spec fn lookup_ident_v(s: Seq<char>) -> TokenV {
    if s == "fn"@ {
        TokenV::Function
    } else if s == "let"@ {
        TokenV::Let
    } else if s == "true"@ {
        TokenV::True
    } else if s == "false"@ {
        TokenV::False
    } else if s == "if"@ {
        TokenV::If
    } else if s == "else"@ {
        TokenV::Else
    } else if s == "return"@ {
        TokenV::Return
    } else {
        TokenV::Ident(s)
    }
}

/// Keyword precedence: a reserved word never comes out as a generic
/// identifier, and any other text comes out as an identifier carrying
/// exactly that text.
pub proof fn lemma_keyword_precedence(s: Seq<char>)
    ensures
        is_keyword(s) ==> !(lookup_ident_v(s) is Ident),
        !is_keyword(s) ==> lookup_ident_v(s) == TokenV::Ident(s),
{
}

/// Resolve an identifier-shaped run of text against the keyword table.
pub fn lookup_ident(ident: &str) -> (t: Token)
    ensures
        t@ == lookup_ident_v(ident@),
{
    let owned: String = ident.to_owned();
    if owned == String::from_str("fn") {
        Token::FUNCTION
    } else if owned == String::from_str("let") {
        Token::LET
    } else if owned == String::from_str("true") {
        Token::TRUE
    } else if owned == String::from_str("false") {
        Token::FALSE
    } else if owned == String::from_str("if") {
        Token::IF
    } else if owned == String::from_str("else") {
        Token::ELSE
    } else if owned == String::from_str("return") {
        Token::RETURN
    } else {
        Token::IDENT(owned)
    }
}

} // verus!
