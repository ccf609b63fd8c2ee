//! Tokens produced by the lexer: a closed set of token kinds, each with an
//! optional literal payload (identifier text, integer value, or string text).

use vstd::prelude::*;

verus! {

/// The closed set of token kinds of the language.
#[derive(Debug, Clone, Copy, PartialEq, Eq, Structural)]
pub enum TokenType {
    Let,
    Fn,
    If,
    Else,
    Return,
    True,
    False,

    Ident,
    Number,
    String,

    Assign,
    Bang,
    Plus,
    Minus,
    Slash,
    Star,
    Comma,
    Semicolon,
    Colon,
    LParen,
    RParen,
    LBrace,
    RBrace,
    LBracket,
    RBracket,

    Lt,
    Gt,
    Eq,
    NotEq,

    Illegal,
    Eof,
}

/// The textual form of a token kind: the keyword or punctuation itself,
/// or a descriptive word for the literal kinds and sentinels.
pub open spec fn token_type_text(ty: TokenType) -> Seq<char> {
    match ty {
        TokenType::Let => "let"@,
        TokenType::Fn => "fn"@,
        TokenType::If => "if"@,
        TokenType::Else => "else"@,
        TokenType::Return => "return"@,
        TokenType::True => "true"@,
        TokenType::False => "false"@,
        TokenType::Ident => "ident"@,
        TokenType::Number => "number"@,
        TokenType::String => "string"@,
        TokenType::Assign => "="@,
        TokenType::Bang => "!"@,
        TokenType::Plus => "+"@,
        TokenType::Minus => "-"@,
        TokenType::Slash => "/"@,
        TokenType::Star => "*"@,
        TokenType::Comma => ","@,
        TokenType::Semicolon => ";"@,
        TokenType::Colon => ":"@,
        TokenType::LParen => "("@,
        TokenType::RParen => ")"@,
        TokenType::LBrace => "{"@,
        TokenType::RBrace => "}"@,
        TokenType::LBracket => "["@,
        TokenType::RBracket => "]"@,
        TokenType::Lt => "<"@,
        TokenType::Gt => ">"@,
        TokenType::Eq => "=="@,
        TokenType::NotEq => "!="@,
        TokenType::Illegal => "illegal"@,
        TokenType::Eof => "eof"@,
    }
}

impl TokenType {
    /// The textual form of this token kind.
    pub fn text(&self) -> (r: &'static str)
        ensures
            r@ == token_type_text(*self),
    {
        match self {
            TokenType::Let => "let",
            TokenType::Fn => "fn",
            TokenType::If => "if",
            TokenType::Else => "else",
            TokenType::Return => "return",
            TokenType::True => "true",
            TokenType::False => "false",
            TokenType::Ident => "ident",
            TokenType::Number => "number",
            TokenType::String => "string",
            TokenType::Assign => "=",
            TokenType::Bang => "!",
            TokenType::Plus => "+",
            TokenType::Minus => "-",
            TokenType::Slash => "/",
            TokenType::Star => "*",
            TokenType::Comma => ",",
            TokenType::Semicolon => ";",
            TokenType::Colon => ":",
            TokenType::LParen => "(",
            TokenType::RParen => ")",
            TokenType::LBrace => "{",
            TokenType::RBrace => "}",
            TokenType::LBracket => "[",
            TokenType::RBracket => "]",
            TokenType::Lt => "<",
            TokenType::Gt => ">",
            TokenType::Eq => "==",
            TokenType::NotEq => "!=",
            TokenType::Illegal => "illegal",
            TokenType::Eof => "eof",
        }
    }
}

/// The literal payload of a token: identifier text, integer value, or
/// string text (for kinds without a payload, the kind's own textual form).
#[derive(Debug, Clone, PartialEq, Eq)]
pub enum TokenLiteral {
    Ident(String),
    Num(i64),
    String(String),
}

impl TokenLiteral {
    /// The identifier text, when this literal is an identifier.
    pub fn ident(&self) -> (r: Option<&str>)
        ensures
            match *self {
                TokenLiteral::Ident(ref s) => r is Some && r->0@ == s@,
                _ => r is None,
            },
    {
        match self {
            TokenLiteral::Ident(s) => Some(s.as_str()),
            _ => None,
        }
    }

    /// The integer value, when this literal is a number.
    pub fn num(&self) -> (r: Option<i64>)
        ensures
            match *self {
                TokenLiteral::Num(n) => r == Some(n),
                _ => r is None,
            },
    {
        match self {
            TokenLiteral::Num(n) => Some(*n),
            _ => None,
        }
    }

    /// The string text, when this literal is a string.
    pub fn string(&self) -> (r: Option<&str>)
        ensures
            match *self {
                TokenLiteral::String(ref s) => r is Some && r->0@ == s@,
                _ => r is None,
            },
    {
        match self {
            TokenLiteral::String(s) => Some(s.as_str()),
            _ => None,
        }
    }
}

/// A token: its kind and its literal payload.
#[derive(Debug, Clone)]
pub struct Token {
    pub ty: TokenType,
    pub literal: TokenLiteral,
}

impl Token {
    /// Whether the literal payload matches the token kind: identifier
    /// kinds carry identifier text, number kinds an integer, and every
    /// other kind string text.
    pub open spec fn wf(&self) -> bool {
        match self.ty {
            TokenType::Ident => self.literal is Ident,
            TokenType::Number => self.literal is Num,
            _ => self.literal is String,
        }
    }

    /// Build a token of the given kind. Identifier and string kinds take
    /// their text; every other kind takes no literal and carries its own
    /// textual form.
    pub fn new(ty: TokenType, literal: Option<String>) -> (r: Token)
        requires
            match ty {
                TokenType::Ident | TokenType::String => literal is Some,
                TokenType::Number => false,
                _ => literal is None,
            },
        ensures
            r.ty == ty,
            r.wf(),
            match ty {
                TokenType::Ident => r.literal == TokenLiteral::Ident(literal->0),
                TokenType::String => r.literal == TokenLiteral::String(literal->0),
                _ => r.literal matches TokenLiteral::String(s) && s@ == token_type_text(ty),
            },
    {
        match ty {
            TokenType::Ident => {
                let lit = literal.unwrap();
                Token { ty, literal: TokenLiteral::Ident(lit) }
            }
            TokenType::String => {
                let lit = literal.unwrap();
                Token { ty, literal: TokenLiteral::String(lit) }
            }
            _ => {
                let text = ty.text();
                Token { ty, literal: TokenLiteral::String(text.to_owned()) }
            }
        }
    }

    /// Build a number token holding the given integer value.
    pub fn number(value: i64) -> (r: Token)
        ensures
            r.ty == TokenType::Number,
            r.literal == TokenLiteral::Num(value),
            r.wf(),
    {
        Token { ty: TokenType::Number, literal: TokenLiteral::Num(value) }
    }
}

/// The mathematical mirror of a token literal.
pub enum LitV {
    Ident(Seq<char>),
    Num(i64),
    Str(Seq<char>),
}

/// The mathematical mirror of a token.
pub struct TokenV {
    pub ty: TokenType,
    pub lit: LitV,
}

impl View for TokenLiteral {
    type V = LitV;

    open spec fn view(&self) -> LitV {
        match *self {
            TokenLiteral::Ident(ref s) => LitV::Ident(s@),
            TokenLiteral::Num(n) => LitV::Num(n),
            TokenLiteral::String(ref s) => LitV::Str(s@),
        }
    }
}

impl View for Token {
    type V = TokenV;

    open spec fn view(&self) -> TokenV {
        TokenV { ty: self.ty, lit: self.literal@ }
    }
}

/// The precedence ladder of the Pratt parser, low to high.
#[derive(Debug, Clone, Copy, PartialEq, Eq, Structural)]
pub enum Precedence {
    Lowest,
    Equals,
    Ltgt,
    Sum,
    Product,
    Prefix,
    Call,
    Index,
}

/// The rank of a precedence level on the ladder.
pub open spec fn prec_rank(p: Precedence) -> int {
    match p {
        Precedence::Lowest => 0,
        Precedence::Equals => 1,
        Precedence::Ltgt => 2,
        Precedence::Sum => 3,
        Precedence::Product => 4,
        Precedence::Prefix => 5,
        Precedence::Call => 6,
        Precedence::Index => 7,
    }
}

impl Precedence {
    /// The rank of this precedence level, for comparisons on the ladder.
    pub fn rank(&self) -> (r: u8)
        ensures
            r == prec_rank(*self),
    {
        match self {
            Precedence::Lowest => 0,
            Precedence::Equals => 1,
            Precedence::Ltgt => 2,
            Precedence::Sum => 3,
            Precedence::Product => 4,
            Precedence::Prefix => 5,
            Precedence::Call => 6,
            Precedence::Index => 7,
        }
    }
}

/// The precedence at which a token kind binds as an infix operator;
/// kinds that are no infix operator sit at the bottom of the ladder.
pub open spec fn token_precedence_spec(ty: TokenType) -> Precedence {
    match ty {
        TokenType::Eq | TokenType::NotEq => Precedence::Equals,
        TokenType::Lt | TokenType::Gt => Precedence::Ltgt,
        TokenType::Plus | TokenType::Minus => Precedence::Sum,
        TokenType::Star | TokenType::Slash => Precedence::Product,
        TokenType::LParen => Precedence::Call,
        TokenType::LBracket => Precedence::Index,
        _ => Precedence::Lowest,
    }
}

/// The precedence at which a token kind binds as an infix operator.
pub fn token_precedence(ty: TokenType) -> (r: Precedence)
    ensures
        r == token_precedence_spec(ty),
{
    match ty {
        TokenType::Eq | TokenType::NotEq => Precedence::Equals,
        TokenType::Lt | TokenType::Gt => Precedence::Ltgt,
        TokenType::Plus | TokenType::Minus => Precedence::Sum,
        TokenType::Star | TokenType::Slash => Precedence::Product,
        TokenType::LParen => Precedence::Call,
        TokenType::LBracket => Precedence::Index,
        _ => Precedence::Lowest,
    }
}

} // verus!
