//! A whole-buffer tokenizer: scans a complete source text into a list of
//! tokens whose literal and identifier text is kept inline, numbers included.
use vstd::prelude::*;

pub mod node;
pub mod token;

verus! {

/// Where a token starts: row, and the column of its first character.
#[derive(Clone, Copy, Debug, PartialEq, Eq, Structural)]
pub struct TokenLoc {
    pub row: i32,
    pub col: i32,
}

impl Default for TokenLoc {
    fn default() -> (r: TokenLoc)
        ensures
            r.row == 0,
            r.col == 0,
    {
        TokenLoc { row: 0, col: 0 }
    }
}

/// What a token is; literals and identifiers carry their text.
#[derive(Clone, Debug, PartialEq, Eq)]
pub enum TokenValue {
    ConstInteger(String),
    ConstFloat(String),
    ConstString(String),
    Id(String),
    /// `(`
    LP0,
    /// `)`
    RP0,
    /// `[`
    LP1,
    /// `]`
    RP1,
    /// `{`
    LP2,
    /// `}`
    RP2,
    /// `<`
    LP3,
    /// `>`
    RP3,
    /// `:`
    COLON,
    /// `,`
    COMMA,
    /// `.`
    DOT,
    KeyNil,
    KeyTrue,
    KeyFalse,
    /// End of input.
    _Eof,
}

impl Default for TokenValue {
    fn default() -> (r: TokenValue)
        ensures
            r == TokenValue::_Eof,
    {
        TokenValue::_Eof
    }
}

/// A located token.
#[derive(Clone, Debug)]
pub struct Token {
    pub loc: TokenLoc,
    pub val: TokenValue,
}

/// A located error report.
#[derive(Clone, Debug)]
pub struct Error {
    pub loc: TokenLoc,
    pub txt: String,
}

/// A node of the syntax tree.
#[derive(Debug)]
pub enum Node {
    Empty,
}

/// Scans `code` and builds its syntax tree, with the errors found on the way.
pub fn build(code: &String) -> (r: (Node, Vec<Error>))
    requires
        code@.len() < i32::MAX,
    ensures
        r.0 is Empty,
        r.1@.len() == 0,
{
    let mut errors: Vec<Error> = Vec::new();
    let tokens = token::build(code, &mut errors);
    if errors.len() > 0 {
        (Node::Empty, errors)
    } else {
        (node::build(&tokens, &mut errors), errors)
    }
}

} // verus!
