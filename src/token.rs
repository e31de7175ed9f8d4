use vstd::prelude::*;

verus! {

/// The kind of a token.
#[derive(Clone, Copy, Debug, PartialEq, Eq, Structural)]
pub enum Type {
    Illegal,
    Eof,
    Ident,
    Int,
    Assign,
    Plus,
    Minus,
    Bang,
    Asterisk,
    Slash,
    Lt,
    Gt,
    Equ,
    Neq,
    Comma,
    Semicolon,
    Lparen,
    Rparen,
    Lbrace,
    Rbrace,
    Function,
    Let,
    True,
    False,
    If,
    Else,
    Return,
}

/// A token: its kind and the source text it was read from.
#[derive(Debug)]
pub struct Token {
    pub t: Type,
    pub literal: String,
}

/// How a token kind is named in messages.
pub open spec fn kind_text(t: Type) -> Seq<char> {
    match t {
        Type::Illegal => "illegal character"@,
        Type::Eof => "end of input"@,
        Type::Ident => "identifier"@,
        Type::Int => "integer"@,
        Type::Assign => "`=`"@,
        Type::Plus => "`+`"@,
        Type::Minus => "`-`"@,
        Type::Bang => "`!`"@,
        Type::Asterisk => "`*`"@,
        Type::Slash => "`/`"@,
        Type::Lt => "`<`"@,
        Type::Gt => "`>`"@,
        Type::Equ => "`==`"@,
        Type::Neq => "`!=`"@,
        Type::Comma => "`,`"@,
        Type::Semicolon => "`;`"@,
        Type::Lparen => "`(`"@,
        Type::Rparen => "`)`"@,
        Type::Lbrace => "`{`"@,
        Type::Rbrace => "`}`"@,
        Type::Function => "`fn`"@,
        Type::Let => "`let`"@,
        Type::True => "`true`"@,
        Type::False => "`false`"@,
        Type::If => "`if`"@,
        Type::Else => "`else`"@,
        Type::Return => "`return`"@,
    }
}

impl Type {
    /// How this token kind is named in messages (see `kind_text`).
    pub fn describe(&self) -> (r: &'static str)
        ensures
            r@ == kind_text(*self),
    {
        match self {
            Type::Illegal => "illegal character",
            Type::Eof => "end of input",
            Type::Ident => "identifier",
            Type::Int => "integer",
            Type::Assign => "`=`",
            Type::Plus => "`+`",
            Type::Minus => "`-`",
            Type::Bang => "`!`",
            Type::Asterisk => "`*`",
            Type::Slash => "`/`",
            Type::Lt => "`<`",
            Type::Gt => "`>`",
            Type::Equ => "`==`",
            Type::Neq => "`!=`",
            Type::Comma => "`,`",
            Type::Semicolon => "`;`",
            Type::Lparen => "`(`",
            Type::Rparen => "`)`",
            Type::Lbrace => "`{`",
            Type::Rbrace => "`}`",
            Type::Function => "`fn`",
            Type::Let => "`let`",
            Type::True => "`true`",
            Type::False => "`false`",
            Type::If => "`if`",
            Type::Else => "`else`",
            Type::Return => "`return`",
        }
    }
}

impl Token {
    /// A copy of this token.
    pub fn duplicate(&self) -> (r: Token)
        ensures
            r == *self,
    {
        Token { t: self.t, literal: self.literal.clone() }
    }
}

} // verus!
