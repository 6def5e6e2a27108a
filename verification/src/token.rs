//! The tokens of the language.
use vstd::prelude::*;
use crate::text::{copy_string, str_eq};

verus! {

/// A token. A float literal keeps the digits and the dot as written.
#[derive(Debug)]
pub enum Token {
    Operator(String),
    Int(i32),
    Float(String),
    Str(String),
    Bool(bool),
    Ident(String),
    Tag(String),
    Error(String),
    LeftParen,
    RightParen,
    LeftBrace,
    RightBrace,
    LeftBracket,
    RightBracket,
    Exec,
    Colon,
    Comma,
    Dot,
    Access,
    Dash,
    IfKw,
    ElseKw,
    WhileKw,
    BreakKw,
    Continuekw,
    SetKw,
    RetKw,
    UseKw,
    ExternKw,
    EOF,
}

/// A token with its text as a sequence of characters.
pub enum TokenV {
    Operator(Seq<char>),
    Int(i32),
    Float(Seq<char>),
    Str(Seq<char>),
    Bool(bool),
    Ident(Seq<char>),
    Tag(Seq<char>),
    Error(Seq<char>),
    LeftParen,
    RightParen,
    LeftBrace,
    RightBrace,
    LeftBracket,
    RightBracket,
    Exec,
    Colon,
    Comma,
    Dot,
    Access,
    Dash,
    IfKw,
    ElseKw,
    WhileKw,
    BreakKw,
    Continuekw,
    SetKw,
    RetKw,
    UseKw,
    ExternKw,
    EOF,
}

impl View for Token {
    type V = TokenV;

    open spec fn view(&self) -> TokenV {
        match self {
            Token::Operator(s) => TokenV::Operator(s@),
            Token::Int(i) => TokenV::Int(*i),
            Token::Float(s) => TokenV::Float(s@),
            Token::Str(s) => TokenV::Str(s@),
            Token::Bool(b) => TokenV::Bool(*b),
            Token::Ident(s) => TokenV::Ident(s@),
            Token::Tag(s) => TokenV::Tag(s@),
            Token::Error(s) => TokenV::Error(s@),
            Token::LeftParen => TokenV::LeftParen,
            Token::RightParen => TokenV::RightParen,
            Token::LeftBrace => TokenV::LeftBrace,
            Token::RightBrace => TokenV::RightBrace,
            Token::LeftBracket => TokenV::LeftBracket,
            Token::RightBracket => TokenV::RightBracket,
            Token::Exec => TokenV::Exec,
            Token::Colon => TokenV::Colon,
            Token::Comma => TokenV::Comma,
            Token::Dot => TokenV::Dot,
            Token::Access => TokenV::Access,
            Token::Dash => TokenV::Dash,
            Token::IfKw => TokenV::IfKw,
            Token::ElseKw => TokenV::ElseKw,
            Token::WhileKw => TokenV::WhileKw,
            Token::BreakKw => TokenV::BreakKw,
            Token::Continuekw => TokenV::Continuekw,
            Token::SetKw => TokenV::SetKw,
            Token::RetKw => TokenV::RetKw,
            Token::UseKw => TokenV::UseKw,
            Token::ExternKw => TokenV::ExternKw,
            Token::EOF => TokenV::EOF,
        }
    }
}

impl Token {
    /// A copy of this token.
    pub fn copy(&self) -> (r: Token)
        ensures
            r@ == self@,
    {
        match self {
            Token::Operator(s) => Token::Operator(copy_string(s)),
            Token::Int(i) => Token::Int(*i),
            Token::Float(s) => Token::Float(copy_string(s)),
            Token::Str(s) => Token::Str(copy_string(s)),
            Token::Bool(b) => Token::Bool(*b),
            Token::Ident(s) => Token::Ident(copy_string(s)),
            Token::Tag(s) => Token::Tag(copy_string(s)),
            Token::Error(s) => Token::Error(copy_string(s)),
            Token::LeftParen => Token::LeftParen,
            Token::RightParen => Token::RightParen,
            Token::LeftBrace => Token::LeftBrace,
            Token::RightBrace => Token::RightBrace,
            Token::LeftBracket => Token::LeftBracket,
            Token::RightBracket => Token::RightBracket,
            Token::Exec => Token::Exec,
            Token::Colon => Token::Colon,
            Token::Comma => Token::Comma,
            Token::Dot => Token::Dot,
            Token::Access => Token::Access,
            Token::Dash => Token::Dash,
            Token::IfKw => Token::IfKw,
            Token::ElseKw => Token::ElseKw,
            Token::WhileKw => Token::WhileKw,
            Token::BreakKw => Token::BreakKw,
            Token::Continuekw => Token::Continuekw,
            Token::SetKw => Token::SetKw,
            Token::RetKw => Token::RetKw,
            Token::UseKw => Token::UseKw,
            Token::ExternKw => Token::ExternKw,
            Token::EOF => Token::EOF,
        }
    }

    /// Whether two tokens are equal: same kind and same payload.
    pub fn same(&self, other: &Token) -> (r: bool)
        ensures
            r == (self@ == other@),
    {
        match (self, other) {
            (Token::Operator(a), Token::Operator(b)) => str_eq(a.as_str(), b.as_str()),
            (Token::Int(a), Token::Int(b)) => *a == *b,
            (Token::Float(a), Token::Float(b)) => str_eq(a.as_str(), b.as_str()),
            (Token::Str(a), Token::Str(b)) => str_eq(a.as_str(), b.as_str()),
            (Token::Bool(a), Token::Bool(b)) => *a == *b,
            (Token::Ident(a), Token::Ident(b)) => str_eq(a.as_str(), b.as_str()),
            (Token::Tag(a), Token::Tag(b)) => str_eq(a.as_str(), b.as_str()),
            (Token::Error(a), Token::Error(b)) => str_eq(a.as_str(), b.as_str()),
            (Token::LeftParen, Token::LeftParen) => true,
            (Token::RightParen, Token::RightParen) => true,
            (Token::LeftBrace, Token::LeftBrace) => true,
            (Token::RightBrace, Token::RightBrace) => true,
            (Token::LeftBracket, Token::LeftBracket) => true,
            (Token::RightBracket, Token::RightBracket) => true,
            (Token::Exec, Token::Exec) => true,
            (Token::Colon, Token::Colon) => true,
            (Token::Comma, Token::Comma) => true,
            (Token::Dot, Token::Dot) => true,
            (Token::Access, Token::Access) => true,
            (Token::Dash, Token::Dash) => true,
            (Token::IfKw, Token::IfKw) => true,
            (Token::ElseKw, Token::ElseKw) => true,
            (Token::WhileKw, Token::WhileKw) => true,
            (Token::BreakKw, Token::BreakKw) => true,
            (Token::Continuekw, Token::Continuekw) => true,
            (Token::SetKw, Token::SetKw) => true,
            (Token::RetKw, Token::RetKw) => true,
            (Token::UseKw, Token::UseKw) => true,
            (Token::ExternKw, Token::ExternKw) => true,
            (Token::EOF, Token::EOF) => true,
            _ => false,
        }
    }
}

} // verus!
