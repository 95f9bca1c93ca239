//! The token model: token kinds, literal payloads, and the keyword table.

use vstd::prelude::*;

verus! {

/// A lexical token, as the lexer hands it out.
#[derive(Debug, Clone, PartialEq, Eq)]
pub enum Token {
    /// A character the lexer does not recognise; the stream goes on after it.
    Illegal(char),
    EndOfFile,
    Ident(String),
    Int(isize),
    Boolean(bool),
    Assign,
    Plus,
    Minus,
    Bang,
    Asterisk,
    Slash,
    LowerThan,
    GreaterThan,
    LowerThanOrEqualTo,
    GreaterThanOrEqualTo,
    Equal,
    NotEqual,
    Comma,
    Semicolon,
    LeftParen,
    RightParen,
    LeftBrace,
    RightBrace,
    Function,
    Let,
    If,
    Else,
    Return,
}

/// The mathematical image of a `Token`: identifier text as a sequence of
/// characters, integer payloads as unbounded integers.
pub enum TokenV {
    Illegal(char),
    EndOfFile,
    Ident(Seq<char>),
    Int(int),
    Boolean(bool),
    Assign,
    Plus,
    Minus,
    Bang,
    Asterisk,
    Slash,
    LowerThan,
    GreaterThan,
    LowerThanOrEqualTo,
    GreaterThanOrEqualTo,
    Equal,
    NotEqual,
    Comma,
    Semicolon,
    LeftParen,
    RightParen,
    LeftBrace,
    RightBrace,
    Function,
    Let,
    If,
    Else,
    Return,
}

impl View for Token {
    type V = TokenV;

    open spec fn view(&self) -> TokenV {
        match self {
            Token::Illegal(c) => TokenV::Illegal(*c),
            Token::EndOfFile => TokenV::EndOfFile,
            Token::Ident(s) => TokenV::Ident(s@),
            Token::Int(n) => TokenV::Int(*n as int),
            Token::Boolean(b) => TokenV::Boolean(*b),
            Token::Assign => TokenV::Assign,
            Token::Plus => TokenV::Plus,
            Token::Minus => TokenV::Minus,
            Token::Bang => TokenV::Bang,
            Token::Asterisk => TokenV::Asterisk,
            Token::Slash => TokenV::Slash,
            Token::LowerThan => TokenV::LowerThan,
            Token::GreaterThan => TokenV::GreaterThan,
            Token::LowerThanOrEqualTo => TokenV::LowerThanOrEqualTo,
            Token::GreaterThanOrEqualTo => TokenV::GreaterThanOrEqualTo,
            Token::Equal => TokenV::Equal,
            Token::NotEqual => TokenV::NotEqual,
            Token::Comma => TokenV::Comma,
            Token::Semicolon => TokenV::Semicolon,
            Token::LeftParen => TokenV::LeftParen,
            Token::RightParen => TokenV::RightParen,
            Token::LeftBrace => TokenV::LeftBrace,
            Token::RightBrace => TokenV::RightBrace,
            Token::Function => TokenV::Function,
            Token::Let => TokenV::Let,
            Token::If => TokenV::If,
            Token::Else => TokenV::Else,
            Token::Return => TokenV::Return,
        }
    }
}

/// The keyword table: the token that a full identifier-shaped run of text is
/// reclassified to, if any. `true` and `false` become boolean literals directly.
pub open spec fn keyword_of(name: Seq<char>) -> Option<TokenV> {
    if name == seq!['f', 'n'] {
        Some(TokenV::Function)
    } else if name == seq!['l', 'e', 't'] {
        Some(TokenV::Let)
    } else if name == seq!['t', 'r', 'u', 'e'] {
        Some(TokenV::Boolean(true))
    } else if name == seq!['f', 'a', 'l', 's', 'e'] {
        Some(TokenV::Boolean(false))
    } else if name == seq!['i', 'f'] {
        Some(TokenV::If)
    } else if name == seq!['e', 'l', 's', 'e'] {
        Some(TokenV::Else)
    } else if name == seq!['r', 'e', 't', 'u', 'r', 'n'] {
        Some(TokenV::Return)
    } else {
        None
    }
}

/// What an identifier-shaped run of text lexes to: the keyword token on a
/// keyword-table hit, an `Ident` token otherwise.
pub open spec fn classify_word(name: Seq<char>) -> TokenV {
    match keyword_of(name) {
        Some(t) => t,
        None => TokenV::Ident(name),
    }
}

/// Reclassifies a full identifier-shaped run: a keyword-table hit yields the
/// keyword token (`true`/`false` yield boolean literals), a miss keeps it an
/// identifier.
pub fn lookup_indent(ident: &str) -> (t: Token)
    ensures
        t@ == classify_word(ident@),
{
    let n = ident.unicode_len();
    if n == 2 && ident.get_char(0) == 'f' && ident.get_char(1) == 'n' {
        proof {
            assert(ident@ =~= seq!['f', 'n']);
        }
        Token::Function
    } else if n == 3 && ident.get_char(0) == 'l' && ident.get_char(1) == 'e' && ident.get_char(2)
        == 't' {
        proof {
            assert(ident@ =~= seq!['l', 'e', 't']);
        }
        Token::Let
    } else if n == 4 && ident.get_char(0) == 't' && ident.get_char(1) == 'r' && ident.get_char(2)
        == 'u' && ident.get_char(3) == 'e' {
        proof {
            assert(ident@ =~= seq!['t', 'r', 'u', 'e']);
        }
        Token::Boolean(true)
    } else if n == 5 && ident.get_char(0) == 'f' && ident.get_char(1) == 'a' && ident.get_char(2)
        == 'l' && ident.get_char(3) == 's' && ident.get_char(4) == 'e' {
        proof {
            assert(ident@ =~= seq!['f', 'a', 'l', 's', 'e']);
        }
        Token::Boolean(false)
    } else if n == 2 && ident.get_char(0) == 'i' && ident.get_char(1) == 'f' {
        proof {
            assert(ident@ =~= seq!['i', 'f']);
        }
        Token::If
    } else if n == 4 && ident.get_char(0) == 'e' && ident.get_char(1) == 'l' && ident.get_char(2)
        == 's' && ident.get_char(3) == 'e' {
        proof {
            assert(ident@ =~= seq!['e', 'l', 's', 'e']);
        }
        Token::Else
    } else if n == 6 && ident.get_char(0) == 'r' && ident.get_char(1) == 'e' && ident.get_char(2)
        == 't' && ident.get_char(3) == 'u' && ident.get_char(4) == 'r' && ident.get_char(5) == 'n' {
        proof {
            assert(ident@ =~= seq!['r', 'e', 't', 'u', 'r', 'n']);
        }
        Token::Return
    } else {
        proof {
            assert(keyword_of(ident@) is None);
        }
        Token::Ident(ident.to_owned())
    }
}

} // verus!
