//! The closed set of lexical categories the language recognizes.

use vstd::prelude::*;

verus! {

/// A lexical token. Identifier, integer and string tokens carry their text
/// or value; every other token is a fixed punctuation mark, operator or
/// keyword. Tokens are immutable once produced.
#[derive(Debug, PartialEq, Eq)]
pub enum Token {
    /// An unrecognized character, carried as its one-character text.
    Illegal(String),
    /// The end-of-input marker; returned forever once the input is exhausted.
    EOF,
    Ident(String),
    Int(i64),
    String(String),
    Assign,
    Plus,
    Minus,
    Bang,
    Asterisk,
    Slash,
    Lt,
    Gt,
    Eq,
    NotEq,
    Comma,
    Semicolon,
    Colon,
    LParen,
    RParen,
    LBrace,
    RBrace,
    LBracket,
    RBracket,
    Function,
    Let,
    True,
    False,
    If,
    Else,
    Return,
}

/// The mathematical model of a token: text payloads are character sequences.
pub enum TokenV {
    Illegal(Seq<char>),
    EOF,
    Ident(Seq<char>),
    Int(i64),
    String(Seq<char>),
    Assign,
    Plus,
    Minus,
    Bang,
    Asterisk,
    Slash,
    Lt,
    Gt,
    Eq,
    NotEq,
    Comma,
    Semicolon,
    Colon,
    LParen,
    RParen,
    LBrace,
    RBrace,
    LBracket,
    RBracket,
    Function,
    Let,
    True,
    False,
    If,
    Else,
    Return,
}

impl View for Token {
    type V = TokenV;

    open spec fn view(&self) -> TokenV {
        match self {
            Token::Illegal(s) => TokenV::Illegal(s@),
            Token::EOF => TokenV::EOF,
            Token::Ident(s) => TokenV::Ident(s@),
            Token::Int(i) => TokenV::Int(*i),
            Token::String(s) => TokenV::String(s@),
            Token::Assign => TokenV::Assign,
            Token::Plus => TokenV::Plus,
            Token::Minus => TokenV::Minus,
            Token::Bang => TokenV::Bang,
            Token::Asterisk => TokenV::Asterisk,
            Token::Slash => TokenV::Slash,
            Token::Lt => TokenV::Lt,
            Token::Gt => TokenV::Gt,
            Token::Eq => TokenV::Eq,
            Token::NotEq => TokenV::NotEq,
            Token::Comma => TokenV::Comma,
            Token::Semicolon => TokenV::Semicolon,
            Token::Colon => TokenV::Colon,
            Token::LParen => TokenV::LParen,
            Token::RParen => TokenV::RParen,
            Token::LBrace => TokenV::LBrace,
            Token::RBrace => TokenV::RBrace,
            Token::LBracket => TokenV::LBracket,
            Token::RBracket => TokenV::RBracket,
            Token::Function => TokenV::Function,
            Token::Let => TokenV::Let,
            Token::True => TokenV::True,
            Token::False => TokenV::False,
            Token::If => TokenV::If,
            Token::Else => TokenV::Else,
            Token::Return => TokenV::Return,
        }
    }
}

impl Clone for Token {
    /// A clone has the same model as the original.
    fn clone(&self) -> (res: Self)
        ensures
            res@ == self@,
    {
        match self {
            Token::Illegal(s) => Token::Illegal(s.clone()),
            Token::EOF => Token::EOF,
            Token::Ident(s) => Token::Ident(s.clone()),
            Token::Int(i) => Token::Int(*i),
            Token::String(s) => Token::String(s.clone()),
            Token::Assign => Token::Assign,
            Token::Plus => Token::Plus,
            Token::Minus => Token::Minus,
            Token::Bang => Token::Bang,
            Token::Asterisk => Token::Asterisk,
            Token::Slash => Token::Slash,
            Token::Lt => Token::Lt,
            Token::Gt => Token::Gt,
            Token::Eq => Token::Eq,
            Token::NotEq => Token::NotEq,
            Token::Comma => Token::Comma,
            Token::Semicolon => Token::Semicolon,
            Token::Colon => Token::Colon,
            Token::LParen => Token::LParen,
            Token::RParen => Token::RParen,
            Token::LBrace => Token::LBrace,
            Token::RBrace => Token::RBrace,
            Token::LBracket => Token::LBracket,
            Token::RBracket => Token::RBracket,
            Token::Function => Token::Function,
            Token::Let => Token::Let,
            Token::True => Token::True,
            Token::False => Token::False,
            Token::If => Token::If,
            Token::Else => Token::Else,
            Token::Return => Token::Return,
        }
    }
}

/// What an identifier's text denotes once checked against the keyword set:
/// one of the seven keywords, or an identifier token carrying the text.
pub open spec fn lookup_ident_spec(name: Seq<char>) -> TokenV {
    if name == "fn"@ {
        TokenV::Function
    } else if name == "let"@ {
        TokenV::Let
    } else if name == "true"@ {
        TokenV::True
    } else if name == "false"@ {
        TokenV::False
    } else if name == "if"@ {
        TokenV::If
    } else if name == "else"@ {
        TokenV::Else
    } else if name == "return"@ {
        TokenV::Return
    } else {
        TokenV::Ident(name)
    }
}

impl Token {
    /// Distinguishes keywords from ordinary identifiers.
    pub fn lookup_ident(literal: String) -> (r: Token)
        ensures
            r@ == lookup_ident_spec(literal@),
    {
        if literal == "fn".to_owned() {
            Token::Function
        } else if literal == "let".to_owned() {
            Token::Let
        } else if literal == "true".to_owned() {
            Token::True
        } else if literal == "false".to_owned() {
            Token::False
        } else if literal == "if".to_owned() {
            Token::If
        } else if literal == "else".to_owned() {
            Token::Else
        } else if literal == "return".to_owned() {
            Token::Return
        } else {
            Token::Ident(literal)
        }
    }
}

} // verus!
