//! The token model: classified tokens and the literal values they carry.

use vstd::prelude::*;

verus! {

/// The kind a scanned token belongs to: a closed enumeration over operators,
/// delimiters, literals, keywords, identifiers and the end-of-file marker.
#[derive(Debug, Clone, Copy, Eq, PartialEq, PartialOrd, Structural)]
pub enum TokenType {
    // Single-character tokens.
    LEFTPAREN,
    RIGHTPAREN,
    LEFTBRACE,
    RIGHTBRACE,
    COMMA,
    DOT,
    MINUS,
    PLUS,
    SEMICOLON,
    STAR,
    SLASH,
    // One or two character tokens.
    BANG,
    BANGEQUAL,
    EQUAL,
    EQUALEQUAL,
    GREATER,
    GREATEREQUAL,
    LESS,
    LESSEQUAL,
    // Literals.
    STRING,
    NUMBER,
    IDENTIFIER,
    // Keywords.
    AND,
    CLASS,
    ELSE,
    FALSE,
    FUN,
    FOR,
    IF,
    NIL,
    OR,
    PRINT,
    RETURN,
    SUPER,
    THIS,
    TRUE,
    VAR,
    WHILE,
    // End of file.
    EOF,
}

/// The literal payload of a token or of a literal expression node: a closed
/// variant over text, a number, a boolean, and the absent value.
///
/// A numeric literal is carried as its canonical decimal text (integer digits,
/// then a fractional part only when it is non-zero), the form in which the
/// printer also renders it.
#[derive(Debug, PartialOrd, PartialEq)]
pub enum Value {
    Text(String),
    Numeric(String),
    Boolean(bool),
    Nil,
}

/// The mathematical model of a `Value`: the same variants over `Seq<char>`.
pub ghost enum SpecValue {
    Text(Seq<char>),
    Numeric(Seq<char>),
    Boolean(bool),
    Nil,
}

impl View for Value {
    type V = SpecValue;

    open spec fn view(&self) -> SpecValue {
        match self {
            Value::Text(s) => SpecValue::Text(s@),
            Value::Numeric(s) => SpecValue::Numeric(s@),
            Value::Boolean(b) => SpecValue::Boolean(*b),
            Value::Nil => SpecValue::Nil,
        }
    }
}

impl Clone for Value {
    fn clone(&self) -> (res: Value)
        ensures
            res == *self,
    {
        match self {
            Value::Text(s) => Value::Text(s.clone()),
            Value::Numeric(s) => Value::Numeric(s.clone()),
            Value::Boolean(b) => Value::Boolean(*b),
            Value::Nil => Value::Nil,
        }
    }
}

/// A single scanned token: its kind, the exact source substring that produced
/// it, its literal payload (absent except for string and number tokens), and
/// the 1-based source line of its first character.
#[derive(Debug, PartialOrd, PartialEq)]
pub struct Token {
    pub token_type: TokenType,
    pub lexeme: String,
    pub literal: Value,
    pub line: usize,
}

/// The mathematical model of a `Token`.
pub ghost struct SpecToken {
    pub ty: TokenType,
    pub lexeme: Seq<char>,
    pub literal: SpecValue,
    pub line: int,
}

impl View for Token {
    type V = SpecToken;

    open spec fn view(&self) -> SpecToken {
        SpecToken {
            ty: self.token_type,
            lexeme: self.lexeme@,
            literal: self.literal@,
            line: self.line as int,
        }
    }
}

impl Clone for Token {
    fn clone(&self) -> (res: Token)
        ensures
            res == *self,
    {
        Token {
            token_type: self.token_type,
            lexeme: self.lexeme.clone(),
            literal: self.literal.clone(),
            line: self.line,
        }
    }
}

impl Token {
    /// The text carried by a string token: `Some` exactly when the literal is
    /// text, with the quotes excluded.
    pub fn get_literal_as_string(&self) -> (r: Option<String>)
        ensures
            match self@.literal {
                SpecValue::Text(t) => r matches Some(s) && s@ == t,
                _ => r is None,
            },
    {
        match &self.literal {
            Value::Text(s) => Some(s.clone()),
            _ => None,
        }
    }

    /// The value carried by a number token, as its canonical decimal text:
    /// `Some` exactly when the literal is numeric.
    pub fn get_literal_as_number(&self) -> (r: Option<String>)
        ensures
            match self@.literal {
                SpecValue::Numeric(t) => r matches Some(s) && s@ == t,
                _ => r is None,
            },
    {
        match &self.literal {
            Value::Numeric(s) => Some(s.clone()),
            _ => None,
        }
    }
}

} // verus!
