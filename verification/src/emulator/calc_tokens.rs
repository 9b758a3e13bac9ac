//! The tokens of a calculation.

use vstd::prelude::*;

verus! {

/// The kind of a token.
#[derive(Debug, Clone, Copy, PartialEq, Eq, Structural)]
pub enum TokenType {
    OpenParen,
    CloseParen,
    Plus,
    Comma,
    Minus,
    Multiply,
    Divide,
    Ampersand,
    Neq,
    Eq,
    Ltq,
    Lt,
    Gtq,
    Gt,
    String,
    Identifier,
    NumericLiteral,
}

/// A token: its kind and, for literals and names, its text.
#[derive(Debug, Clone)]
pub struct Token {
    pub ttype: TokenType,
    pub value: Option<String>,
}

impl Token {
    /// A token without text.
    pub fn new(ttype: TokenType) -> (r: Self)
        ensures
            r.ttype == ttype,
            r.value is None,
    {
        Token { ttype, value: None }
    }

    /// A token with text.
    pub fn with_value(ttype: TokenType, value: String) -> (r: Self)
        ensures
            r.ttype == ttype,
            r.value == Some(value),
    {
        Token { ttype, value: Some(value) }
    }
}

} // verus!
