//! The token model: lexical categories, and tokens that pair a category with
//! the text it was read from.

use vstd::prelude::*;
use vstd::std_specs::cmp::PartialEqSpecImpl;

verus! {

/// The lexical category of a token.
#[derive(Clone, Copy, Debug, PartialEq, Eq, Structural, Hash)]
pub enum TokenType {
    Illegal,
    Eof,
    Ident,
    Int,
    Assign,
    Plus,
    Minus,
    Bang,
    Asterisk,
    Eq,
    NotEq,
    Comma,
    Semicolon,
    Slash,
    LParen,
    RParen,
    LBrace,
    RBrace,
    LT,
    RT,
    Function,
    Let,
    True,
    False,
    If,
    Else,
    Return,
}

/// The name under which a category appears in diagnostics.
pub open spec fn kind_name(kind: TokenType) -> Seq<char> {
    match kind {
        TokenType::Illegal => "Token::Illegal"@,
        TokenType::Eof => "Token::Eof"@,
        TokenType::Ident => "Token::Ident"@,
        TokenType::Int => "Token::Int"@,
        TokenType::Assign => "Token::Assign"@,
        TokenType::Plus => "Token::Plus"@,
        TokenType::Minus => "Token::Minus"@,
        TokenType::Bang => "Token::Bang"@,
        TokenType::Asterisk => "Token::Asterisk"@,
        TokenType::Eq => "Token::Eq"@,
        TokenType::NotEq => "Token::NotEq"@,
        TokenType::Comma => "Token::Comma"@,
        TokenType::Semicolon => "Token::Semicolon"@,
        TokenType::Slash => "Token::Slash"@,
        TokenType::LParen => "Token::LParen"@,
        TokenType::RParen => "Token::RParen"@,
        TokenType::LBrace => "Token::LBrace"@,
        TokenType::RBrace => "Token::RBrace"@,
        TokenType::LT => "Token::LT"@,
        TokenType::RT => "Token::RT"@,
        TokenType::Function => "Token::Function"@,
        TokenType::Let => "Token::Let"@,
        TokenType::True => "Token::True"@,
        TokenType::False => "Token::False"@,
        TokenType::If => "Token::If"@,
        TokenType::Else => "Token::Else"@,
        TokenType::Return => "Token::Return"@,
    }
}

/// The canonical spelling of a category in source text. Categories whose text
/// varies from token to token (identifiers, integers, illegal bytes) and the
/// end of input have none, and give the empty text.
pub open spec fn spelling(kind: TokenType) -> Seq<char> {
    match kind {
        TokenType::Illegal => ""@,
        TokenType::Eof => ""@,
        TokenType::Ident => ""@,
        TokenType::Int => ""@,
        TokenType::Assign => "="@,
        TokenType::Plus => "+"@,
        TokenType::Minus => "-"@,
        TokenType::Bang => "!"@,
        TokenType::Asterisk => "*"@,
        TokenType::Eq => "=="@,
        TokenType::NotEq => "!="@,
        TokenType::Comma => ","@,
        TokenType::Semicolon => ";"@,
        TokenType::Slash => "/"@,
        TokenType::LParen => "("@,
        TokenType::RParen => ")"@,
        TokenType::LBrace => "{"@,
        TokenType::RBrace => "}"@,
        TokenType::LT => "<"@,
        TokenType::RT => ">"@,
        TokenType::Function => "fn"@,
        TokenType::Let => "let"@,
        TokenType::True => "true"@,
        TokenType::False => "false"@,
        TokenType::If => "if"@,
        TokenType::Else => "else"@,
        TokenType::Return => "return"@,
    }
}

/// Whether the text of a token of this category is part of its identity.
pub open spec fn carries_text(kind: TokenType) -> bool {
    kind == TokenType::Ident || kind == TokenType::Int
}

impl TokenType {
    /// The name of the category, as diagnostics print it.
    pub fn to_string(&self) -> (r: String)
        ensures
            r@ == kind_name(*self),
    {
        let s: &str = match self {
            TokenType::Illegal => "Token::Illegal",
            TokenType::Eof => "Token::Eof",
            TokenType::Ident => "Token::Ident",
            TokenType::Int => "Token::Int",
            TokenType::Assign => "Token::Assign",
            TokenType::Plus => "Token::Plus",
            TokenType::Minus => "Token::Minus",
            TokenType::Bang => "Token::Bang",
            TokenType::Asterisk => "Token::Asterisk",
            TokenType::Eq => "Token::Eq",
            TokenType::NotEq => "Token::NotEq",
            TokenType::Comma => "Token::Comma",
            TokenType::Semicolon => "Token::Semicolon",
            TokenType::Slash => "Token::Slash",
            TokenType::LParen => "Token::LParen",
            TokenType::RParen => "Token::RParen",
            TokenType::LBrace => "Token::LBrace",
            TokenType::RBrace => "Token::RBrace",
            TokenType::LT => "Token::LT",
            TokenType::RT => "Token::RT",
            TokenType::Function => "Token::Function",
            TokenType::Let => "Token::Let",
            TokenType::True => "Token::True",
            TokenType::False => "Token::False",
            TokenType::If => "Token::If",
            TokenType::Else => "Token::Else",
            TokenType::Return => "Token::Return",
        };
        String::from_str(s)
    }

    /// The canonical spelling of the category in source text.
    pub fn spelling(&self) -> (r: String)
        ensures
            r@ == spelling(*self),
    {
        let s: &str = match self {
            TokenType::Illegal => "",
            TokenType::Eof => "",
            TokenType::Ident => "",
            TokenType::Int => "",
            TokenType::Assign => "=",
            TokenType::Plus => "+",
            TokenType::Minus => "-",
            TokenType::Bang => "!",
            TokenType::Asterisk => "*",
            TokenType::Eq => "==",
            TokenType::NotEq => "!=",
            TokenType::Comma => ",",
            TokenType::Semicolon => ";",
            TokenType::Slash => "/",
            TokenType::LParen => "(",
            TokenType::RParen => ")",
            TokenType::LBrace => "{",
            TokenType::RBrace => "}",
            TokenType::LT => "<",
            TokenType::RT => ">",
            TokenType::Function => "fn",
            TokenType::Let => "let",
            TokenType::True => "true",
            TokenType::False => "false",
            TokenType::If => "if",
            TokenType::Else => "else",
            TokenType::Return => "return",
        };
        String::from_str(s)
    }
}

/// A token: a category and the text it was read from. The text matters for
/// identifiers and integers only.
#[derive(Debug)]
pub struct Token {
    pub token_type: TokenType,
    pub literal: String,
}

/// What a token is, as a mathematical value.
pub struct TokenView {
    pub kind: TokenType,
    pub lexeme: Seq<char>,
}

impl View for Token {
    type V = TokenView;

    open spec fn view(&self) -> TokenView {
        TokenView { kind: self.token_type, lexeme: self.literal@ }
    }
}

/// A token of the given category without text.
pub open spec fn bare(kind: TokenType) -> TokenView {
    TokenView { kind, lexeme: Seq::empty() }
}

/// Token equality: the categories agree, and so do the texts where the
/// category carries one.
pub open spec fn same_token(a: TokenView, b: TokenView) -> bool {
    a.kind == b.kind && (carries_text(a.kind) ==> a.lexeme == b.lexeme)
}

/// The form in which diagnostics print a token.
pub open spec fn token_text(t: TokenView) -> Seq<char> {
    if carries_text(t.kind) {
        kind_name(t.kind) + "("@ + t.lexeme + ")"@
    } else {
        kind_name(t.kind)
    }
}

impl Token {
    /// Makes a token; without a text, the text is empty.
    pub fn new(token_type: TokenType, literal: Option<String>) -> (r: Token)
        ensures
            r@.kind == token_type,
            r@.lexeme == match literal {
                Some(s) => s@,
                None => Seq::<char>::empty(),
            },
    {
        let literal: String = match literal {
            Some(s) => s,
            None => String::new(),
        };
        Token { token_type, literal }
    }

    /// The token as diagnostics print it: the category's name, followed for
    /// identifiers and integers by the text in parentheses.
    pub fn to_string(&self) -> (r: String)
        ensures
            r@ == token_text(self@),
    {
        let name = self.token_type.to_string();
        match self.token_type {
            TokenType::Ident | TokenType::Int => {
                let r = name.concat("(").concat(self.literal.as_str()).concat(")");
                r
            },
            _ => name,
        }
    }
}

impl Clone for Token {
    fn clone(&self) -> (r: Self)
        ensures
            r == *self,
    {
        Token { token_type: self.token_type, literal: self.literal.clone() }
    }
}

impl PartialEq for Token {
    fn eq(&self, other: &Self) -> (r: bool) {
        if self.token_type != other.token_type {
            return false;
        }
        match self.token_type {
            TokenType::Ident | TokenType::Int => self.literal == other.literal,
            _ => true,
        }
    }
}

impl PartialEqSpecImpl for Token {
    open spec fn obeys_eq_spec() -> bool {
        true
    }

    open spec fn eq_spec(&self, other: &Self) -> bool {
        same_token(self@, other@)
    }
}

impl Eq for Token {

}

} // verus!
