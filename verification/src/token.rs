//! Lexical tokens.

use vstd::prelude::*;

verus! {

/// A lexical token. A number is held as the bits of a double.
#[derive(Debug, Clone, PartialEq)]
pub enum Token {
    Number(u64),
    Identifier(String),
    Plus,
    Minus,
    Star,
    Slash,
    Caret,
    LParen,
    RParen,
    Comma,
    EOF,
}

/// A [`Token`] as a mathematical value.
pub enum Symbol {
    Number(u64),
    Identifier(Seq<char>),
    Plus,
    Minus,
    Star,
    Slash,
    Caret,
    LParen,
    RParen,
    Comma,
    EOF,
}

impl View for Token {
    type V = Symbol;

    open spec fn view(&self) -> Symbol {
        match *self {
            Token::Number(n) => Symbol::Number(n),
            Token::Identifier(name) => Symbol::Identifier(name@),
            Token::Plus => Symbol::Plus,
            Token::Minus => Symbol::Minus,
            Token::Star => Symbol::Star,
            Token::Slash => Symbol::Slash,
            Token::Caret => Symbol::Caret,
            Token::LParen => Symbol::LParen,
            Token::RParen => Symbol::RParen,
            Token::Comma => Symbol::Comma,
            Token::EOF => Symbol::EOF,
        }
    }
}

impl Symbol {
    /// How a token is named in a message.
    pub open spec fn name(self) -> Seq<char> {
        match self {
            Symbol::Number(_) => "number"@,
            Symbol::Identifier(name) => "identifier '"@ + name + "'"@,
            Symbol::Plus => "'+'"@,
            Symbol::Minus => "'-'"@,
            Symbol::Star => "'*'"@,
            Symbol::Slash => "'/'"@,
            Symbol::Caret => "'^'"@,
            Symbol::LParen => "'('"@,
            Symbol::RParen => "')'"@,
            Symbol::Comma => "','"@,
            Symbol::EOF => "end of input"@,
        }
    }
}

impl Token {
    /// How the token is named in a message.
    pub fn describe(&self) -> (s: String)
        ensures
            s@ == self@.name(),
    {
        match self {
            Token::Number(_) => String::from_str("number"),
            Token::Identifier(name) => {
                let mut s = String::from_str("identifier '");
                s.append(name.as_str());
                s.append("'");
                s
            },
            Token::Plus => String::from_str("'+'"),
            Token::Minus => String::from_str("'-'"),
            Token::Star => String::from_str("'*'"),
            Token::Slash => String::from_str("'/'"),
            Token::Caret => String::from_str("'^'"),
            Token::LParen => String::from_str("'('"),
            Token::RParen => String::from_str("')'"),
            Token::Comma => String::from_str("','"),
            Token::EOF => String::from_str("end of input"),
        }
    }
}

} // verus!
