//! Token and syntax-tree value types shared by the scanner and its consumers.
use vstd::prelude::*;
use crate::diag;
use crate::pool;
use crate::pool::resolved;

verus! {

/// Where a token starts: 1-based row, and the column of its first character.
#[derive(Clone, Copy, Debug, PartialEq, Eq, Structural)]
pub struct TokenLoc {
    pub row: u32,
    pub col: u32,
}

impl Default for TokenLoc {
    fn default() -> (r: TokenLoc)
        ensures
            r.row == 1,
            r.col == 0,
    {
        TokenLoc { row: 1, col: 0 }
    }
}

/// What a token is. Literal and identifier references hold the identity of
/// their text in the interning pool; a string literal holds its decoded text.
#[derive(Clone, Debug, PartialEq, Eq)]
pub enum TokenValue {
    LiteralInteger(u32),
    LiteralFloat(u32),
    LiteralString(String),
    Id(u32),
    /// `(`
    LP0,
    /// `)`
    RP0,
    /// `[`
    LP1,
    /// `]`
    RP1,
    /// `{`
    LP2,
    /// `}`
    RP2,
    /// `<`
    LP3,
    /// `>`
    RP3,
    /// `<-`
    ASSIGN,
    /// `@`
    AT,
    /// `:`
    COLON,
    /// `,`
    COMMA,
    /// `.`
    DOT,
    /// `=`
    EQUAL,
    /// `~`
    TILDE,
    /// `'`
    QUOTE1,
    /// `"`
    QUOTE2,
    KeyAuto,
    KeyFor,
    KeyNil,
    KeyTrue,
    KeyFalse,
    /// End of input.
    _EOF,
}

impl Default for TokenValue {
    fn default() -> (r: TokenValue)
        ensures
            r == TokenValue::_EOF,
    {
        TokenValue::_EOF
    }
}

/// A located, classified unit of source text.
#[derive(Clone, Debug)]
pub struct Token {
    pub loc: TokenLoc,
    pub val: TokenValue,
}

/// A node of the syntax tree.
#[derive(Debug)]
pub enum Node {
    Define { loc: TokenLoc },
    _Empty,
}

impl Default for Node {
    fn default() -> (r: Node)
        ensures
            r is _Empty,
    {
        Node::_Empty
    }
}

/// A source of tokens that a consumer pulls one at a time, until it yields
/// the end-of-input token.
pub trait Lexer {
    /// The source is in a state from which it can produce a token.
    spec fn ready(&self) -> bool;

    /// Produces the next token, interning identifier text in `pool`.
    fn lexer_pass(&mut self, pool: &mut pool::Object, diag: &mut diag::Object) -> (r: Token)
        requires
            old(self).ready(),
            old(pool).wf(),
            old(pool)@.len() < u32::MAX,
        ensures
            final(self).ready(),
            final(pool).wf(),
            old(pool)@.is_prefix_of(final(pool)@),
    ;
}

/// Relies on `String`'s `FromIterator<&char>`: the string holds the characters
/// in order.
#[verifier::external_body]
pub(crate) fn text_of(v: &Vec<char>) -> (r: String)
    ensures
        r@ == v@,
{
    v.iter().collect::<String>()
}

/// The decimal digit for `d < 10`.
pub open spec fn digit_char(d: nat) -> char {
    ((48 + d) as u8) as char
}

/// The decimal numeral of `n`, without leading zeros.
pub open spec fn decimal(n: nat) -> Seq<char>
    decreases n,
{
    if n < 10 {
        seq![digit_char(n)]
    } else {
        decimal(n / 10).push(digit_char(n % 10))
    }
}

fn decimal_chars(n: u32) -> (r: Vec<char>)
    ensures
        r@ == decimal(n as nat),
    decreases n,
{
    let d = (48u8 + (n % 10) as u8) as char;
    if n < 10 {
        let mut v = Vec::new();
        v.push(d);
        proof {
            assert(v@ =~= seq![digit_char(n as nat)]);
        }
        v
    } else {
        let mut v = decimal_chars(n / 10);
        v.push(d);
        v
    }
}

/// Renders `n` in decimal.
pub(crate) fn decimal_text(n: u32) -> (r: String)
    ensures
        r@ == decimal(n as nat),
{
    text_of(&decimal_chars(n))
}

/// The display text of a location: `row:col`.
pub open spec fn loc_text(l: TokenLoc) -> Seq<char> {
    decimal(l.row as nat) + ":"@ + decimal(l.col as nat)
}

/// The display text of a token value; literal and identifier references show
/// the text they stand for in pool `p`.
pub open spec fn value_text(v: TokenValue, p: Seq<Seq<char>>) -> Seq<char> {
    match v {
        TokenValue::LiteralInteger(a) => "(Integer "@ + resolved(p, a as int) + ")"@,
        TokenValue::LiteralFloat(a) => "(Float "@ + resolved(p, a as int) + ")"@,
        TokenValue::LiteralString(s) => "(String \""@ + s@ + "\")"@,
        TokenValue::Id(a) => "(Id "@ + resolved(p, a as int) + ")"@,
        TokenValue::LP0 => "( LP0"@,
        TokenValue::RP0 => ") RP0"@,
        TokenValue::LP1 => "[ LP1"@,
        TokenValue::RP1 => "] RP1"@,
        TokenValue::LP2 => "{ LP2"@,
        TokenValue::RP2 => "} RP2"@,
        TokenValue::LP3 => "< LP3"@,
        TokenValue::RP3 => "> RP3"@,
        TokenValue::ASSIGN => "<- ASSIGN"@,
        TokenValue::AT => "@ AT"@,
        TokenValue::COLON => ": COLON"@,
        TokenValue::COMMA => ", COMMA"@,
        TokenValue::DOT => ". DOT"@,
        TokenValue::EQUAL => "= EQUAL"@,
        TokenValue::TILDE => "~ TILDE"@,
        TokenValue::QUOTE1 => "' QUOTE1"@,
        TokenValue::QUOTE2 => "\" QUOTE2"@,
        TokenValue::KeyAuto => "auto"@,
        TokenValue::KeyFor => "for"@,
        TokenValue::KeyNil => "nil"@,
        TokenValue::KeyTrue => "true"@,
        TokenValue::KeyFalse => "false"@,
        TokenValue::_EOF => "<!EOF!>"@,
    }
}

/// `head` + the text of `id` in `pool` + `tail`.
fn wrapped(head: &str, pool: &pool::Object, id: u32, tail: &str) -> (r: String)
    ensures
        r@ == head@ + resolved(pool@, id as int) + tail@,
{
    let mut s = String::from_str(head);
    let t = pool.str_at(id);
    s.append(t.as_str());
    s.append(tail);
    s
}

impl TokenLoc {
    /// The location as `row:col`.
    pub fn emit(&self) -> (r: String)
        ensures
            r@ == loc_text(*self),
    {
        let mut s = decimal_text(self.row);
        s.append(":");
        let c = decimal_text(self.col);
        s.append(c.as_str());
        s
    }
}

impl TokenValue {
    /// The display text of the value, resolving references through `pool`.
    pub fn emit(&self, pool: &pool::Object) -> (r: String)
        ensures
            r@ == value_text(*self, pool@),
    {
        match self {
            TokenValue::LiteralInteger(a) => wrapped("(Integer ", pool, *a, ")"),
            TokenValue::LiteralFloat(a) => wrapped("(Float ", pool, *a, ")"),
            TokenValue::LiteralString(a) => {
                let mut s = String::from_str("(String \"");
                s.append(a.as_str());
                s.append("\")");
                s
            },
            TokenValue::Id(a) => wrapped("(Id ", pool, *a, ")"),
            TokenValue::LP0 => String::from_str("( LP0"),
            TokenValue::RP0 => String::from_str(") RP0"),
            TokenValue::LP1 => String::from_str("[ LP1"),
            TokenValue::RP1 => String::from_str("] RP1"),
            TokenValue::LP2 => String::from_str("{ LP2"),
            TokenValue::RP2 => String::from_str("} RP2"),
            TokenValue::LP3 => String::from_str("< LP3"),
            TokenValue::RP3 => String::from_str("> RP3"),
            TokenValue::ASSIGN => String::from_str("<- ASSIGN"),
            TokenValue::AT => String::from_str("@ AT"),
            TokenValue::COLON => String::from_str(": COLON"),
            TokenValue::COMMA => String::from_str(", COMMA"),
            TokenValue::DOT => String::from_str(". DOT"),
            TokenValue::EQUAL => String::from_str("= EQUAL"),
            TokenValue::TILDE => String::from_str("~ TILDE"),
            TokenValue::QUOTE1 => String::from_str("' QUOTE1"),
            TokenValue::QUOTE2 => String::from_str("\" QUOTE2"),
            TokenValue::KeyAuto => String::from_str("auto"),
            TokenValue::KeyFor => String::from_str("for"),
            TokenValue::KeyNil => String::from_str("nil"),
            TokenValue::KeyTrue => String::from_str("true"),
            TokenValue::KeyFalse => String::from_str("false"),
            TokenValue::_EOF => String::from_str("<!EOF!>"),
        }
    }
}

impl Token {
    /// The token as `[row:col value]`.
    pub fn emit(&self, pool: &pool::Object) -> (r: String)
        ensures
            r@ == "["@ + loc_text(self.loc) + " "@ + value_text(self.val, pool@) + "]"@,
    {
        let mut s = String::from_str("[");
        let l = self.loc.emit();
        s.append(l.as_str());
        s.append(" ");
        let v = self.val.emit(pool);
        s.append(v.as_str());
        s.append("]");
        s
    }
}

impl Node {
    /// The display text of the node.
    pub fn emit(&self, pool: &pool::Object) -> (r: String)
        ensures
            r@ == "(Node)"@,
    {
        String::from_str("(Node)")
    }
}

} // verus!
