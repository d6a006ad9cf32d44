//! The token set the lexer produces and the parser consumes.

use vstd::prelude::*;

verus! {

/// A lexical token.  Identifier and integer tokens carry their source text.
#[derive(Debug)]
pub enum Token {
    Illegal,
    Assign,
    Plus,
    Minus,
    Bang,
    Asterisk,
    Slash,
    Lt,
    Gt,
    Eq,
    Ne,
    Semicolon,
    LParen,
    RParen,
    LBrace,
    RBrace,
    Let,
    Return,
    True,
    False,
    If,
    Else,
    Ident(String),
    Int(String),
}

/// The mathematical image of a token: the same shape with character
/// sequences for the carried text.
pub enum TokV {
    Illegal,
    Assign,
    Plus,
    Minus,
    Bang,
    Asterisk,
    Slash,
    Lt,
    Gt,
    Eq,
    Ne,
    Semicolon,
    LParen,
    RParen,
    LBrace,
    RBrace,
    Let,
    Return,
    True,
    False,
    If,
    Else,
    Ident(Seq<char>),
    Int(Seq<char>),
}

impl View for Token {
    type V = TokV;

    open spec fn view(&self) -> TokV {
        match self {
            Token::Illegal => TokV::Illegal,
            Token::Assign => TokV::Assign,
            Token::Plus => TokV::Plus,
            Token::Minus => TokV::Minus,
            Token::Bang => TokV::Bang,
            Token::Asterisk => TokV::Asterisk,
            Token::Slash => TokV::Slash,
            Token::Lt => TokV::Lt,
            Token::Gt => TokV::Gt,
            Token::Eq => TokV::Eq,
            Token::Ne => TokV::Ne,
            Token::Semicolon => TokV::Semicolon,
            Token::LParen => TokV::LParen,
            Token::RParen => TokV::RParen,
            Token::LBrace => TokV::LBrace,
            Token::RBrace => TokV::RBrace,
            Token::Let => TokV::Let,
            Token::Return => TokV::Return,
            Token::True => TokV::True,
            Token::False => TokV::False,
            Token::If => TokV::If,
            Token::Else => TokV::Else,
            Token::Ident(s) => TokV::Ident(s@),
            Token::Int(s) => TokV::Int(s@),
        }
    }
}

impl Clone for Token {
    fn clone(&self) -> (r: Self)
        ensures
            r@ == self@,
    {
        match self {
            Token::Illegal => Token::Illegal,
            Token::Assign => Token::Assign,
            Token::Plus => Token::Plus,
            Token::Minus => Token::Minus,
            Token::Bang => Token::Bang,
            Token::Asterisk => Token::Asterisk,
            Token::Slash => Token::Slash,
            Token::Lt => Token::Lt,
            Token::Gt => Token::Gt,
            Token::Eq => Token::Eq,
            Token::Ne => Token::Ne,
            Token::Semicolon => Token::Semicolon,
            Token::LParen => Token::LParen,
            Token::RParen => Token::RParen,
            Token::LBrace => Token::LBrace,
            Token::RBrace => Token::RBrace,
            Token::Let => Token::Let,
            Token::Return => Token::Return,
            Token::True => Token::True,
            Token::False => Token::False,
            Token::If => Token::If,
            Token::Else => Token::Else,
            Token::Ident(s) => Token::Ident(s.clone()),
            Token::Int(s) => Token::Int(s.clone()),
        }
    }
}

impl PartialEq for Token {
    fn eq(&self, other: &Self) -> (r: bool) {
        match (self, other) {
            (Token::Illegal, Token::Illegal) => true,
            (Token::Assign, Token::Assign) => true,
            (Token::Plus, Token::Plus) => true,
            (Token::Minus, Token::Minus) => true,
            (Token::Bang, Token::Bang) => true,
            (Token::Asterisk, Token::Asterisk) => true,
            (Token::Slash, Token::Slash) => true,
            (Token::Lt, Token::Lt) => true,
            (Token::Gt, Token::Gt) => true,
            (Token::Eq, Token::Eq) => true,
            (Token::Ne, Token::Ne) => true,
            (Token::Semicolon, Token::Semicolon) => true,
            (Token::LParen, Token::LParen) => true,
            (Token::RParen, Token::RParen) => true,
            (Token::LBrace, Token::LBrace) => true,
            (Token::RBrace, Token::RBrace) => true,
            (Token::Let, Token::Let) => true,
            (Token::Return, Token::Return) => true,
            (Token::True, Token::True) => true,
            (Token::False, Token::False) => true,
            (Token::If, Token::If) => true,
            (Token::Else, Token::Else) => true,
            (Token::Ident(a), Token::Ident(b)) => *a == *b,
            (Token::Int(a), Token::Int(b)) => *a == *b,
            _ => false,
        }
    }
}

impl vstd::std_specs::cmp::PartialEqSpecImpl for Token {
    open spec fn obeys_eq_spec() -> bool {
        true
    }

    open spec fn eq_spec(&self, other: &Self) -> bool {
        self@ == other@
    }
}

} // verus!
