//! Tokens of the source language.
use vstd::prelude::*;

verus! {

/// Identifier id reserved for the builtin `InputNum`.
pub const PREDEFINED_INPUTNUM_ID: usize = 0;

/// Identifier id reserved for the builtin `OutputNum`.
pub const PREDEFINED_OUTPUTNUM_ID: usize = 1;

/// Identifier id reserved for the builtin `OutputNewLine`.
pub const PREDEFINED_OUTPUTNEWLINE_ID: usize = 2;

/// A relational operator of the source language.
#[derive(Debug, Clone, Copy, PartialEq, Eq, Structural)]
pub enum RelOp {
    Equal,
    NotEqual,
    LessThan,
    LessThanOrEqual,
    GreaterThan,
    GreaterThanOrEqual,
}

/// A lexical token. `Ident` carries the identifier's position in the intern
/// table, `Number` the literal's value.
#[derive(Debug, Clone, Copy, PartialEq, Eq, Structural)]
pub enum Token {
    // Operators
    Plus,
    Minus,
    Times,
    Divide,
    // Delimiters
    OpenParen,
    CloseParen,
    OpenBrace,
    CloseBrace,
    // Keywords
    Main,
    Var,
    Let,
    Call,
    If,
    Fi,
    Then,
    Else,
    While,
    Do,
    Od,
    Void,
    Function,
    Return,
    // Symbols
    Assignment,
    Comma,
    Semicolon,
    Period,
    // Multilength
    Number(isize),
    Ident(usize),
    RelOp(RelOp),
}

} // verus!
