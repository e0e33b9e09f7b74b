//! Tokens: the lexical units that the lexer produces and the parser consumes.

use vstd::prelude::*;

use crate::text::{decimal, push_decimal};

verus! {

/// The kind of a token.
#[derive(Debug, PartialEq, Eq, Clone, Copy, Structural)]
pub enum TokenType {
    Value,
    Variable,
    Int,
    Eq,
    Semi,
    Unknown,
    ArithmeticOp,
    BooleanOp,
}

impl TokenType {
    /// The human-readable name of the kind.
    pub open spec fn name(self) -> Seq<char> {
        match self {
            TokenType::Value => "Value"@,
            TokenType::Variable => "Variable"@,
            TokenType::Int => "Integer"@,
            TokenType::Eq => "Equals"@,
            TokenType::Semi => "Semicolon"@,
            TokenType::ArithmeticOp => "Arithmetic Operator"@,
            TokenType::BooleanOp => "Boolean Operator"@,
            TokenType::Unknown => "Unknown"@,
        }
    }

    pub fn to_string(&self) -> (r: String)
        ensures
            r@ == self.name(),
    {
        match self {
            TokenType::Value => String::from_str("Value"),
            TokenType::Variable => String::from_str("Variable"),
            TokenType::Int => String::from_str("Integer"),
            TokenType::Eq => String::from_str("Equals"),
            TokenType::Semi => String::from_str("Semicolon"),
            TokenType::ArithmeticOp => String::from_str("Arithmetic Operator"),
            TokenType::BooleanOp => String::from_str("Boolean Operator"),
            TokenType::Unknown => String::from_str("Unknown"),
        }
    }
}

/// A position in the source text: 1-based line, 1-based column.
#[derive(Clone, Copy, Debug, PartialEq, Eq, Structural)]
pub struct TextLocation {
    pub line_num: usize,
    pub col_num: usize,
}

impl TextLocation {
    /// The cursor before the first character: line 1, no column consumed yet.
    pub fn new() -> (r: Self)
        ensures
            r.line_num == 1,
            r.col_num == 0,
    {
        TextLocation { line_num: 1, col_num: 0 }
    }

    /// `Line: L, Col: C`.
    pub open spec fn text(self) -> Seq<char> {
        "Line: "@ + decimal(self.line_num as nat) + ", Col: "@ + decimal(self.col_num as nat)
    }

    pub fn to_string(&self) -> (r: String)
        ensures
            r@ == self.text(),
    {
        let mut out = String::from_str("Line: ");
        push_decimal(&mut out, self.line_num as u128);
        out.append(", Col: ");
        push_decimal(&mut out, self.col_num as u128);
        out
    }
}

/// A classified lexeme together with the position where it starts.
#[derive(Clone, Debug)]
pub struct Token {
    pub t_type: TokenType,
    pub value: String,
    pub location: TextLocation,
}

impl Token {
    /// `[(<Kind>: <lexeme>), Line: L, Col: C]`.
    pub open spec fn text(self) -> Seq<char> {
        "[("@ + self.t_type.name() + ": "@ + self.value@ + "), "@ + self.location.text() + "]"@
    }

    pub fn to_string(&self) -> (r: String)
        ensures
            r@ == self.text(),
    {
        let mut out = String::from_str("[(");
        let kind = self.t_type.to_string();
        out.append(kind.as_str());
        out.append(": ");
        out.append(self.value.as_str());
        out.append("), ");
        let loc = self.location.to_string();
        out.append(loc.as_str());
        out.append("]");
        out
    }

    /// A copy of this token, equal to it in every field.
    pub fn duplicate(&self) -> (r: Token)
        ensures
            r == *self,
    {
        Token { t_type: self.t_type, value: self.value.clone(), location: self.location }
    }
}

} // verus!
