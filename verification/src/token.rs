//! Tokens, their mathematical values, and the text that names a token in a
//! diagnostic.

use crate::text::{int_text, push_int};
use vstd::prelude::*;

verus! {

/// One lexical unit of the source text.
#[derive(Debug)]
pub enum Token {
    ILLEGAL,
    EOF,
    IDENT(String),
    INT(i64),
    BOOL(bool),
    ASSIGN,
    PLUS,
    MINUS,
    BANG,
    ASTERISK,
    SLASH,
    LT,
    GT,
    EQ,
    NotEq,
    COMMA,
    SEMICOLON,
    LPAREN,
    RPAREN,
    LBRACE,
    RBRACE,
    FUNCTION,
    LET,
    IF,
    ELSE,
    RETURN,
}

/// The mathematical value of a [`Token`]: the same variants, with the text of
/// an identifier as a sequence of characters.
pub enum SpecToken {
    ILLEGAL,
    EOF,
    IDENT(Seq<char>),
    INT(i64),
    BOOL(bool),
    ASSIGN,
    PLUS,
    MINUS,
    BANG,
    ASTERISK,
    SLASH,
    LT,
    GT,
    EQ,
    NotEq,
    COMMA,
    SEMICOLON,
    LPAREN,
    RPAREN,
    LBRACE,
    RBRACE,
    FUNCTION,
    LET,
    IF,
    ELSE,
    RETURN,
}

impl View for Token {
    type V = SpecToken;

    open spec fn view(&self) -> SpecToken {
        match self {
            Token::ILLEGAL => SpecToken::ILLEGAL,
            Token::EOF => SpecToken::EOF,
            Token::IDENT(name) => SpecToken::IDENT(name@),
            Token::INT(value) => SpecToken::INT(*value),
            Token::BOOL(value) => SpecToken::BOOL(*value),
            Token::ASSIGN => SpecToken::ASSIGN,
            Token::PLUS => SpecToken::PLUS,
            Token::MINUS => SpecToken::MINUS,
            Token::BANG => SpecToken::BANG,
            Token::ASTERISK => SpecToken::ASTERISK,
            Token::SLASH => SpecToken::SLASH,
            Token::LT => SpecToken::LT,
            Token::GT => SpecToken::GT,
            Token::EQ => SpecToken::EQ,
            Token::NotEq => SpecToken::NotEq,
            Token::COMMA => SpecToken::COMMA,
            Token::SEMICOLON => SpecToken::SEMICOLON,
            Token::LPAREN => SpecToken::LPAREN,
            Token::RPAREN => SpecToken::RPAREN,
            Token::LBRACE => SpecToken::LBRACE,
            Token::RBRACE => SpecToken::RBRACE,
            Token::FUNCTION => SpecToken::FUNCTION,
            Token::LET => SpecToken::LET,
            Token::IF => SpecToken::IF,
            Token::ELSE => SpecToken::ELSE,
            Token::RETURN => SpecToken::RETURN,
        }
    }
}

impl PartialEq for Token {
    /// Two tokens are equal when their values are.
    fn eq(&self, other: &Token) -> (equal: bool) {
        match (self, other) {
            (Token::ILLEGAL, Token::ILLEGAL) => true,
            (Token::EOF, Token::EOF) => true,
            (Token::IDENT(a), Token::IDENT(b)) => *a == *b,
            (Token::INT(a), Token::INT(b)) => *a == *b,
            (Token::BOOL(a), Token::BOOL(b)) => *a == *b,
            (Token::ASSIGN, Token::ASSIGN) => true,
            (Token::PLUS, Token::PLUS) => true,
            (Token::MINUS, Token::MINUS) => true,
            (Token::BANG, Token::BANG) => true,
            (Token::ASTERISK, Token::ASTERISK) => true,
            (Token::SLASH, Token::SLASH) => true,
            (Token::LT, Token::LT) => true,
            (Token::GT, Token::GT) => true,
            (Token::EQ, Token::EQ) => true,
            (Token::NotEq, Token::NotEq) => true,
            (Token::COMMA, Token::COMMA) => true,
            (Token::SEMICOLON, Token::SEMICOLON) => true,
            (Token::LPAREN, Token::LPAREN) => true,
            (Token::RPAREN, Token::RPAREN) => true,
            (Token::LBRACE, Token::LBRACE) => true,
            (Token::RBRACE, Token::RBRACE) => true,
            (Token::FUNCTION, Token::FUNCTION) => true,
            (Token::LET, Token::LET) => true,
            (Token::IF, Token::IF) => true,
            (Token::ELSE, Token::ELSE) => true,
            (Token::RETURN, Token::RETURN) => true,
            _ => false,
        }
    }
}

impl vstd::std_specs::cmp::PartialEqSpecImpl for Token {
    open spec fn obeys_eq_spec() -> bool {
        true
    }

    open spec fn eq_spec(&self, other: &Token) -> bool {
        self@ == other@
    }
}

impl Clone for Token {
    fn clone(&self) -> (copy: Token)
        ensures
            copy@ == self@,
    {
        match self {
            Token::IDENT(name) => Token::IDENT(name.clone()),
            Token::INT(value) => Token::INT(*value),
            Token::BOOL(value) => Token::BOOL(*value),
            Token::ILLEGAL => Token::ILLEGAL,
            Token::EOF => Token::EOF,
            Token::ASSIGN => Token::ASSIGN,
            Token::PLUS => Token::PLUS,
            Token::MINUS => Token::MINUS,
            Token::BANG => Token::BANG,
            Token::ASTERISK => Token::ASTERISK,
            Token::SLASH => Token::SLASH,
            Token::LT => Token::LT,
            Token::GT => Token::GT,
            Token::EQ => Token::EQ,
            Token::NotEq => Token::NotEq,
            Token::COMMA => Token::COMMA,
            Token::SEMICOLON => Token::SEMICOLON,
            Token::LPAREN => Token::LPAREN,
            Token::RPAREN => Token::RPAREN,
            Token::LBRACE => Token::LBRACE,
            Token::RBRACE => Token::RBRACE,
            Token::FUNCTION => Token::FUNCTION,
            Token::LET => Token::LET,
            Token::IF => Token::IF,
            Token::ELSE => Token::ELSE,
            Token::RETURN => Token::RETURN,
        }
    }
}

impl SpecToken {
    /// The text that names this token in a diagnostic: the variant's name,
    /// followed in parentheses by what the token carries, an identifier in
    /// double quotes.
    pub open spec fn describe(self) -> Seq<char> {
        match self {
            SpecToken::IDENT(name) => "IDENT(\""@ + name + "\")"@,
            SpecToken::INT(value) => "INT("@ + int_text(value as int) + ")"@,
            SpecToken::BOOL(value) => if value {
                "BOOL(true)"@
            } else {
                "BOOL(false)"@
            },
            SpecToken::ILLEGAL => "ILLEGAL"@,
            SpecToken::EOF => "EOF"@,
            SpecToken::ASSIGN => "ASSIGN"@,
            SpecToken::PLUS => "PLUS"@,
            SpecToken::MINUS => "MINUS"@,
            SpecToken::BANG => "BANG"@,
            SpecToken::ASTERISK => "ASTERISK"@,
            SpecToken::SLASH => "SLASH"@,
            SpecToken::LT => "LT"@,
            SpecToken::GT => "GT"@,
            SpecToken::EQ => "EQ"@,
            SpecToken::NotEq => "NotEq"@,
            SpecToken::COMMA => "COMMA"@,
            SpecToken::SEMICOLON => "SEMICOLON"@,
            SpecToken::LPAREN => "LPAREN"@,
            SpecToken::RPAREN => "RPAREN"@,
            SpecToken::LBRACE => "LBRACE"@,
            SpecToken::RBRACE => "RBRACE"@,
            SpecToken::FUNCTION => "FUNCTION"@,
            SpecToken::LET => "LET"@,
            SpecToken::IF => "IF"@,
            SpecToken::ELSE => "ELSE"@,
            SpecToken::RETURN => "RETURN"@,
        }
    }
}

impl Token {
    /// The text that names this token in a diagnostic, such as `ASSIGN`,
    /// `INT(5)` or `IDENT("x")`.
    pub fn describe(&self) -> (text: String)
        ensures
            text@ == self@.describe(),
    {
        match self {
            Token::IDENT(name) => {
                let mut text = String::from_str("IDENT(\"");
                text.append(name.as_str());
                text.append("\")");
                text
            },
            Token::INT(value) => {
                let mut text = String::from_str("INT(");
                push_int(&mut text, *value);
                text.append(")");
                text
            },
            Token::BOOL(value) => if *value {
                String::from_str("BOOL(true)")
            } else {
                String::from_str("BOOL(false)")
            },
            Token::ILLEGAL => String::from_str("ILLEGAL"),
            Token::EOF => String::from_str("EOF"),
            Token::ASSIGN => String::from_str("ASSIGN"),
            Token::PLUS => String::from_str("PLUS"),
            Token::MINUS => String::from_str("MINUS"),
            Token::BANG => String::from_str("BANG"),
            Token::ASTERISK => String::from_str("ASTERISK"),
            Token::SLASH => String::from_str("SLASH"),
            Token::LT => String::from_str("LT"),
            Token::GT => String::from_str("GT"),
            Token::EQ => String::from_str("EQ"),
            Token::NotEq => String::from_str("NotEq"),
            Token::COMMA => String::from_str("COMMA"),
            Token::SEMICOLON => String::from_str("SEMICOLON"),
            Token::LPAREN => String::from_str("LPAREN"),
            Token::RPAREN => String::from_str("RPAREN"),
            Token::LBRACE => String::from_str("LBRACE"),
            Token::RBRACE => String::from_str("RBRACE"),
            Token::FUNCTION => String::from_str("FUNCTION"),
            Token::LET => String::from_str("LET"),
            Token::IF => String::from_str("IF"),
            Token::ELSE => String::from_str("ELSE"),
            Token::RETURN => String::from_str("RETURN"),
        }
    }
}

} // verus!
