//! Scanning a whole text into tokens. A character that ends a word or a
//! number is read again in the start mode, at the same location.
use vstd::prelude::*;
use crate::batch::{Error, Token, TokenLoc, TokenValue};
use crate::lexer::{advance, is_blank};
use crate::tree::{decimal, decimal_text, text_of};

verus! {

/// Scanning mode between two characters.
#[derive(Clone, Copy, Debug, PartialEq, Eq, Structural)]
pub enum P {
    First,
    Id,
    Str,
    Integer,
    Float,
    Minus,
    Comment,
}

/// A completed token, with its text as a sequence of characters.
pub enum Piece {
    Fixed(TokenValue),
    Integer(Seq<char>),
    Float(Seq<char>),
    Text(Seq<char>),
    Word(Seq<char>),
}

/// The effect of one character.
pub enum Stride {
    /// Keep scanning in the given mode with the given accumulated text.
    Go(P, Seq<char>),
    /// The token is complete; the character is read again from the start mode.
    Take(Piece),
    /// The token is complete and the character belongs to it.
    TakeToFirst(Piece),
}

/// A token found at (`row`, `col`).
pub struct Found {
    pub row: int,
    pub col: int,
    pub piece: Piece,
}

pub open spec fn is_digit(c: char) -> bool {
    48 <= c as u32 <= 57
}

/// The single-character tokens.
pub open spec fn leaf_of(c: char) -> Option<TokenValue> {
    if c == '(' {
        Some(TokenValue::LP0)
    } else if c == ')' {
        Some(TokenValue::RP0)
    } else if c == '[' {
        Some(TokenValue::LP1)
    } else if c == ']' {
        Some(TokenValue::RP1)
    } else if c == '{' {
        Some(TokenValue::LP2)
    } else if c == '}' {
        Some(TokenValue::RP2)
    } else if c == '<' {
        Some(TokenValue::LP3)
    } else if c == '>' {
        Some(TokenValue::RP3)
    } else if c == ':' {
        Some(TokenValue::COLON)
    } else if c == ',' {
        Some(TokenValue::COMMA)
    } else if c == '.' {
        Some(TokenValue::DOT)
    } else {
        None
    }
}

/// Characters that end a word.
pub open spec fn ends_word(c: char) -> bool {
    is_blank(c) || leaf_of(c) is Some || c == '"' || c == '#'
}

/// A completed word: a reserved word, or an identifier.
pub open spec fn word_piece(t: Seq<char>) -> Piece {
    if t == seq!['n', 'i', 'l'] {
        Piece::Fixed(TokenValue::KeyNil)
    } else if t == seq!['t', 'r', 'u', 'e'] {
        Piece::Fixed(TokenValue::KeyTrue)
    } else if t == seq!['f', 'a', 'l', 's', 'e'] {
        Piece::Fixed(TokenValue::KeyFalse)
    } else {
        Piece::Word(t)
    }
}

/// The transition function.
pub open spec fn stride(p: P, t: Seq<char>, a: char) -> Stride {
    match p {
        P::First => if is_blank(a) {
            Stride::Go(P::First, t)
        } else if is_digit(a) {
            Stride::Go(P::Integer, t.push(a))
        } else if a == '-' {
            Stride::Go(P::Minus, t.push(a))
        } else if leaf_of(a) is Some {
            Stride::TakeToFirst(Piece::Fixed(leaf_of(a)->0))
        } else if a == '"' {
            Stride::Go(P::Str, t)
        } else if a == '#' {
            Stride::Go(P::Comment, t)
        } else {
            Stride::Go(P::Id, t.push(a))
        },
        P::Id => if ends_word(a) {
            Stride::Take(word_piece(t))
        } else {
            Stride::Go(P::Id, t.push(a))
        },
        P::Str => if a == '\0' || a == '"' {
            Stride::TakeToFirst(Piece::Text(t))
        } else {
            Stride::Go(P::Str, t.push(a))
        },
        P::Integer => if is_digit(a) {
            Stride::Go(P::Integer, t.push(a))
        } else if a == '.' {
            Stride::Go(P::Float, t.push(a))
        } else {
            Stride::Take(Piece::Integer(t))
        },
        P::Float => if is_digit(a) {
            Stride::Go(P::Float, t.push(a))
        } else {
            Stride::Take(Piece::Float(t))
        },
        P::Minus => if is_digit(a) {
            Stride::Go(P::Integer, t.push(a))
        } else {
            Stride::Go(P::Id, t.push(a))
        },
        P::Comment => if a == '\n' {
            Stride::Go(P::First, t)
        } else {
            Stride::Go(P::Comment, t)
        },
    }
}

/// What an unfinished token becomes when the text runs out: a lone `-`
/// and a comment yield nothing.
pub open spec fn finish(p: P, t: Seq<char>) -> Option<Piece> {
    match p {
        P::Id => Some(word_piece(t)),
        P::Str => Some(Piece::Text(t)),
        P::Integer => Some(Piece::Integer(t)),
        P::Float => Some(Piece::Float(t)),
        _ => None,
    }
}

/// Whether `a`, read in `p`, is the first character of a token.
pub open spec fn starts(p: P, a: char) -> bool {
    p == P::First && !is_blank(a) && a != '#'
}

/// The tokens found in `cs[i..]`, from mode `p` with accumulated text `t`
/// and the current token's location `unit`, at position (`row`, `col`);
/// the last is the end-of-input token at the final position.
pub open spec fn scan_all(
    cs: Seq<char>,
    i: int,
    row: int,
    col: int,
    p: P,
    t: Seq<char>,
    unit: (int, int),
) -> Seq<Found>
    decreases cs.len() - i,
{
    if i < 0 || i >= cs.len() {
        let tail = seq![Found { row, col, piece: Piece::Fixed(TokenValue::_Eof) }];
        match finish(p, t) {
            Some(x) => seq![Found { row: unit.0, col: unit.1, piece: x }] + tail,
            None => tail,
        }
    } else {
        let a = cs[i];
        let pos = advance(row, col, a);
        let u2 = if starts(p, a) { pos } else { unit };
        match stride(p, t, a) {
            Stride::Go(p2, t2) => scan_all(cs, i + 1, pos.0, pos.1, p2, t2, u2),
            Stride::TakeToFirst(x) => seq![Found { row: u2.0, col: u2.1, piece: x }] + scan_all(
                cs,
                i + 1,
                pos.0,
                pos.1,
                P::First,
                Seq::empty(),
                u2,
            ),
            Stride::Take(x) => {
                let u3 = if starts(P::First, a) { pos } else { u2 };
                seq![Found { row: u2.0, col: u2.1, piece: x }] + match stride(
                    P::First,
                    Seq::empty(),
                    a,
                ) {
                    Stride::Go(p3, t3) => scan_all(cs, i + 1, pos.0, pos.1, p3, t3, u3),
                    Stride::TakeToFirst(y) | Stride::Take(y) => seq![
                        Found { row: u3.0, col: u3.1, piece: y },
                    ] + scan_all(cs, i + 1, pos.0, pos.1, P::First, Seq::empty(), u3),
                }
            },
        }
    }
}

/// The tokens of a whole text.
pub open spec fn tokens_of(cs: Seq<char>) -> Seq<Found> {
    scan_all(cs, 0, 1, 0, P::First, Seq::empty(), (0, 0))
}

/// The piece a token value stands for.
pub open spec fn piece_of(v: TokenValue) -> Piece {
    match v {
        TokenValue::ConstInteger(s) => Piece::Integer(s@),
        TokenValue::ConstFloat(s) => Piece::Float(s@),
        TokenValue::ConstString(s) => Piece::Text(s@),
        TokenValue::Id(s) => Piece::Word(s@),
        _ => Piece::Fixed(v),
    }
}

/// A token as a found piece.
pub open spec fn found_of(t: Token) -> Found {
    Found { row: t.loc.row as int, col: t.loc.col as int, piece: piece_of(t.val) }
}

/// Relies on `str::chars` collected into a `Vec`: the characters of the text,
/// in order.
#[verifier::external_body]
fn chars_of(s: &str) -> (r: Vec<char>)
    ensures
        r@ == s@,
{
    s.chars().collect::<Vec<char>>()
}

/// What one character did.
enum Fed {
    Go(P),
    Take(TokenValue),
    TakeToFirst(TokenValue),
}

spec fn fed_as(r: Fed, s: Stride, t1: Seq<char>) -> bool {
    match s {
        Stride::Go(p2, w) => r == Fed::Go(p2) && t1 == w,
        Stride::Take(x) => r is Take && piece_of(r->Take_0) == x,
        Stride::TakeToFirst(x) => r is TakeToFirst && piece_of(r->TakeToFirst_0) == x,
    }
}

/// The text accumulated for the token being read, and where it started.
struct ParseStatus {
    takes: Vec<char>,
    loc_unit: TokenLoc,
    loc: TokenLoc,
}

fn word_value(takes: &Vec<char>) -> (r: TokenValue)
    ensures
        piece_of(r) == word_piece(takes@),
{
    let n = takes.len();
    if n == 3 && takes[0] == 'n' && takes[1] == 'i' && takes[2] == 'l' {
        proof {
            assert(takes@ =~= seq!['n', 'i', 'l']);
        }
        TokenValue::KeyNil
    } else if n == 4 && takes[0] == 't' && takes[1] == 'r' && takes[2] == 'u' && takes[3] == 'e' {
        proof {
            assert(takes@ =~= seq!['t', 'r', 'u', 'e']);
        }
        TokenValue::KeyTrue
    } else if n == 5 && takes[0] == 'f' && takes[1] == 'a' && takes[2] == 'l' && takes[3] == 's'
        && takes[4] == 'e' {
        proof {
            assert(takes@ =~= seq!['f', 'a', 'l', 's', 'e']);
        }
        TokenValue::KeyFalse
    } else {
        proof {
            assert(takes@ != seq!['n', 'i', 'l']);
            assert(takes@ != seq!['t', 'r', 'u', 'e']);
            assert(takes@ != seq!['f', 'a', 'l', 's', 'e']);
        }
        TokenValue::Id(text_of(takes))
    }
}

fn p_first(a: char, ps: &mut ParseStatus) -> (r: Fed)
    ensures
        fed_as(r, stride(P::First, old(ps).takes@, a), final(ps).takes@),
        final(ps).loc == old(ps).loc,
        final(ps).loc_unit == if starts(P::First, a) {
            old(ps).loc
        } else {
            old(ps).loc_unit
        },
{
    let leaf = match a {
        '(' => Some(TokenValue::LP0),
        ')' => Some(TokenValue::RP0),
        '[' => Some(TokenValue::LP1),
        ']' => Some(TokenValue::RP1),
        '{' => Some(TokenValue::LP2),
        '}' => Some(TokenValue::RP2),
        '<' => Some(TokenValue::LP3),
        '>' => Some(TokenValue::RP3),
        ':' => Some(TokenValue::COLON),
        ',' => Some(TokenValue::COMMA),
        '.' => Some(TokenValue::DOT),
        _ => None,
    };
    if a as u32 <= 32 {
        Fed::Go(P::First)
    } else if '0' as u32 <= a as u32 && a as u32 <= '9' as u32 {
        ps.takes.push(a);
        ps.loc_unit = ps.loc;
        Fed::Go(P::Integer)
    } else if a == '-' {
        ps.takes.push(a);
        ps.loc_unit = ps.loc;
        Fed::Go(P::Minus)
    } else if let Some(v) = leaf {
        ps.loc_unit = ps.loc;
        Fed::TakeToFirst(v)
    } else if a == '"' {
        ps.loc_unit = ps.loc;
        Fed::Go(P::Str)
    } else if a == '#' {
        Fed::Go(P::Comment)
    } else {
        ps.takes.push(a);
        ps.loc_unit = ps.loc;
        Fed::Go(P::Id)
    }
}

fn p_id(a: char, ps: &mut ParseStatus) -> (r: Fed)
    ensures
        fed_as(r, stride(P::Id, old(ps).takes@, a), final(ps).takes@),
        final(ps).loc == old(ps).loc,
        final(ps).loc_unit == old(ps).loc_unit,
{
    match a {
        '(' | ')' | '[' | ']' | '{' | '}' | '<' | '>' | ':' | ',' | '.' | '"' | '#' => {
            Fed::Take(word_value(&ps.takes))
        },
        _ => {
            if a as u32 <= 32 {
                Fed::Take(word_value(&ps.takes))
            } else {
                ps.takes.push(a);
                Fed::Go(P::Id)
            }
        },
    }
}

fn p_string(a: char, ps: &mut ParseStatus) -> (r: Fed)
    ensures
        fed_as(r, stride(P::Str, old(ps).takes@, a), final(ps).takes@),
        final(ps).loc == old(ps).loc,
        final(ps).loc_unit == old(ps).loc_unit,
{
    match a {
        '\0' | '"' => Fed::TakeToFirst(TokenValue::ConstString(text_of(&ps.takes))),
        _ => {
            ps.takes.push(a);
            Fed::Go(P::Str)
        },
    }
}

fn p_integer(a: char, ps: &mut ParseStatus) -> (r: Fed)
    ensures
        fed_as(r, stride(P::Integer, old(ps).takes@, a), final(ps).takes@),
        final(ps).loc == old(ps).loc,
        final(ps).loc_unit == old(ps).loc_unit,
{
    if '0' as u32 <= a as u32 && a as u32 <= '9' as u32 {
        ps.takes.push(a);
        Fed::Go(P::Integer)
    } else if a == '.' {
        ps.takes.push(a);
        Fed::Go(P::Float)
    } else {
        Fed::Take(TokenValue::ConstInteger(text_of(&ps.takes)))
    }
}

fn p_float(a: char, ps: &mut ParseStatus) -> (r: Fed)
    ensures
        fed_as(r, stride(P::Float, old(ps).takes@, a), final(ps).takes@),
        final(ps).loc == old(ps).loc,
        final(ps).loc_unit == old(ps).loc_unit,
{
    if '0' as u32 <= a as u32 && a as u32 <= '9' as u32 {
        ps.takes.push(a);
        Fed::Go(P::Float)
    } else {
        Fed::Take(TokenValue::ConstFloat(text_of(&ps.takes)))
    }
}

fn p_minus(a: char, ps: &mut ParseStatus) -> (r: Fed)
    ensures
        fed_as(r, stride(P::Minus, old(ps).takes@, a), final(ps).takes@),
        final(ps).loc == old(ps).loc,
        final(ps).loc_unit == old(ps).loc_unit,
{
    ps.takes.push(a);
    if '0' as u32 <= a as u32 && a as u32 <= '9' as u32 {
        Fed::Go(P::Integer)
    } else {
        Fed::Go(P::Id)
    }
}

fn p_comment(a: char, ps: &ParseStatus) -> (r: Fed)
    ensures
        fed_as(r, stride(P::Comment, ps.takes@, a), ps.takes@),
{
    match a {
        '\n' => Fed::Go(P::First),
        _ => Fed::Go(P::Comment),
    }
}

/// Feeds `a` to the tokenizer in mode `p`.
fn feed(p: P, a: char, ps: &mut ParseStatus) -> (r: Fed)
    ensures
        fed_as(r, stride(p, old(ps).takes@, a), final(ps).takes@),
        final(ps).loc == old(ps).loc,
        final(ps).loc_unit == if starts(p, a) {
            old(ps).loc
        } else {
            old(ps).loc_unit
        },
{
    match p {
        P::First => p_first(a, ps),
        P::Id => p_id(a, ps),
        P::Str => p_string(a, ps),
        P::Integer => p_integer(a, ps),
        P::Float => p_float(a, ps),
        P::Minus => p_minus(a, ps),
        P::Comment => p_comment(a, ps),
    }
}

/// What mode `p` yields when the text runs out.
fn p_end(p: P, ps: &ParseStatus) -> (r: Option<TokenValue>)
    ensures
        match finish(p, ps.takes@) {
            Some(x) => r is Some && piece_of(r->0) == x,
            None => r is None,
        },
{
    match p {
        P::Id => Some(word_value(&ps.takes)),
        P::Str => Some(TokenValue::ConstString(text_of(&ps.takes))),
        P::Integer => Some(TokenValue::ConstInteger(text_of(&ps.takes))),
        P::Float => Some(TokenValue::ConstFloat(text_of(&ps.takes))),
        _ => None,
    }
}

/// Scans the whole of `code` into tokens, ending with the end-of-input token
/// at the final position. Scanning reports no error.
pub fn build(code: &String, errors: &mut Vec<Error>) -> (r: Vec<Token>)
    requires
        code@.len() < i32::MAX,
    ensures
        r@.map_values(|t: Token| found_of(t)) == tokens_of(code@),
        final(errors)@ == old(errors)@,
{
    let cs = chars_of(code.as_str());
    let mut tokens: Vec<Token> = Vec::new();
    let mut ps = ParseStatus {
        takes: Vec::new(),
        loc_unit: TokenLoc { row: 0, col: 0 },
        loc: TokenLoc { row: 1, col: 0 },
    };
    let mut pcur = P::First;
    let mut i: usize = 0;
    let ghost target = tokens_of(code@);
    proof {
        assert(tokens@.map_values(|t: Token| found_of(t)) + target =~= target);
    }
    while i < cs.len()
        invariant
            cs@ == code@,
            cs@.len() < i32::MAX,
            0 <= i <= cs@.len(),
            1 <= ps.loc.row <= i + 1,
            0 <= ps.loc.col <= i,
            target == tokens_of(code@),
            tokens@.map_values(|t: Token| found_of(t)) + scan_all(
                cs@,
                i as int,
                ps.loc.row as int,
                ps.loc.col as int,
                pcur,
                ps.takes@,
                (ps.loc_unit.row as int, ps.loc_unit.col as int),
            ) == target,
        decreases cs@.len() - i,
    {
        let a = cs[i];
        let ghost before = tokens@.map_values(|t: Token| found_of(t));
        let ghost (p0, t0, u0) = (pcur, ps.takes@, (ps.loc_unit.row as int, ps.loc_unit.col as int));
        let ghost (row0, col0) = (ps.loc.row as int, ps.loc.col as int);
        if a == '\n' {
            ps.loc.row = ps.loc.row + 1;
            ps.loc.col = 0;
        } else {
            ps.loc.col = ps.loc.col + 1;
        }
        let ghost pos = (ps.loc.row as int, ps.loc.col as int);
        assert(pos == advance(row0, col0, a));
        match feed(pcur, a, &mut ps) {
            Fed::Go(p2) => {
                pcur = p2;
            },
            Fed::TakeToFirst(v) => {
                let t = Token { loc: ps.loc_unit, val: v };
                tokens.push(t);
                proof {
                    assert(tokens@.map_values(|t: Token| found_of(t)) =~= before.push(found_of(t)));
                }
                ps.takes = Vec::new();
                pcur = P::First;
            },
            Fed::Take(v) => {
                let t = Token { loc: ps.loc_unit, val: v };
                tokens.push(t);
                proof {
                    assert(tokens@.map_values(|t: Token| found_of(t)) =~= before.push(found_of(t)));
                }
                ps.takes = Vec::new();
                let ghost mid = tokens@.map_values(|t: Token| found_of(t));
                match p_first(a, &mut ps) {
                    Fed::Go(p3) => {
                        pcur = p3;
                    },
                    Fed::TakeToFirst(w) | Fed::Take(w) => {
                        let t2 = Token { loc: ps.loc_unit, val: w };
                        tokens.push(t2);
                        proof {
                            assert(tokens@.map_values(|t: Token| found_of(t)) =~= mid.push(
                                found_of(t2),
                            ));
                        }
                        ps.takes = Vec::new();
                        pcur = P::First;
                    },
                }
            },
        }
        proof {
            let after = tokens@.map_values(|t: Token| found_of(t));
            let rest = scan_all(
                cs@,
                i + 1,
                ps.loc.row as int,
                ps.loc.col as int,
                pcur,
                ps.takes@,
                (ps.loc_unit.row as int, ps.loc_unit.col as int),
            );
            assert(scan_all(cs@, i as int, row0, col0, p0, t0, u0) == after.subrange(
                before.len() as int,
                after.len() as int,
            ) + rest);
            assert(after + rest =~= before + (after.subrange(before.len() as int, after.len() as int)
                + rest));
        }
        i = i + 1;
    }
    let ghost before = tokens@.map_values(|t: Token| found_of(t));
    match p_end(pcur, &ps) {
        Some(v) => {
            tokens.push(Token { loc: ps.loc_unit, val: v });
        },
        None => {},
    }
    tokens.push(Token { loc: ps.loc, val: TokenValue::_Eof });
    proof {
        let after = tokens@.map_values(|t: Token| found_of(t));
        assert(after =~= before + after.subrange(before.len() as int, after.len() as int));
    }
    tokens
}

/// The decimal numeral of `n`, with a leading `-` when negative.
pub open spec fn int_text(n: int) -> Seq<char> {
    if n < 0 {
        "-"@ + decimal((-n) as nat)
    } else {
        decimal(n as nat)
    }
}

/// The display text of a location: `row:col`.
pub open spec fn loc_text(l: TokenLoc) -> Seq<char> {
    int_text(l.row as int) + ":"@ + int_text(l.col as int)
}

/// The display text of a token value.
pub open spec fn value_text(v: TokenValue) -> Seq<char> {
    match v {
        TokenValue::ConstInteger(a) => "(Integer "@ + a@ + ")"@,
        TokenValue::ConstFloat(a) => "(Float "@ + a@ + ")"@,
        TokenValue::ConstString(a) => "(String \""@ + a@ + "\")"@,
        TokenValue::Id(a) => "(Id "@ + a@ + ")"@,
        TokenValue::LP0 => "'(' LP0"@,
        TokenValue::RP0 => "')' RP0"@,
        TokenValue::LP1 => "'[' LP1"@,
        TokenValue::RP1 => "']' RP1"@,
        TokenValue::LP2 => "'{' LP2"@,
        TokenValue::RP2 => "'}' RP2"@,
        TokenValue::LP3 => "'<' LP3"@,
        TokenValue::RP3 => "'>' RP3"@,
        TokenValue::COLON => "':' COLON"@,
        TokenValue::COMMA => "',' COMMA"@,
        TokenValue::DOT => "'.' DOT"@,
        TokenValue::KeyNil => "nil"@,
        TokenValue::KeyTrue => "true"@,
        TokenValue::KeyFalse => "false"@,
        TokenValue::_Eof => "<!EOF!>"@,
    }
}

/// The display text of a token: `[row:col value]`.
pub open spec fn token_text(t: Token) -> Seq<char> {
    "["@ + loc_text(t.loc) + " "@ + value_text(t.val) + "]"@
}

/// The lines of `s` joined with newlines between them.
pub open spec fn joined(s: Seq<Seq<char>>) -> Seq<char>
    decreases s.len(),
{
    if s.len() == 0 {
        Seq::empty()
    } else if s.len() == 1 {
        s[0]
    } else {
        joined(s.drop_last()) + "\n"@ + s.last()
    }
}

fn int_text_of(n: i32) -> (r: String)
    ensures
        r@ == int_text(n as int),
{
    if n < 0 {
        let mut s = String::from_str("-");
        let d = decimal_text((0 - n as i64) as u32);
        s.append(d.as_str());
        s
    } else {
        decimal_text(n as u32)
    }
}

impl TokenLoc {
    /// The location as `row:col`.
    pub fn text(&self) -> (r: String)
        ensures
            r@ == loc_text(*self),
    {
        let mut s = int_text_of(self.row);
        s.append(":");
        let c = int_text_of(self.col);
        s.append(c.as_str());
        s
    }
}

fn wrapped(head: &str, a: &String, tail: &str) -> (r: String)
    ensures
        r@ == head@ + a@ + tail@,
{
    let mut s = String::from_str(head);
    s.append(a.as_str());
    s.append(tail);
    s
}

impl TokenValue {
    /// The display text of the value.
    pub fn text(&self) -> (r: String)
        ensures
            r@ == value_text(*self),
    {
        match self {
            TokenValue::ConstInteger(a) => wrapped("(Integer ", a, ")"),
            TokenValue::ConstFloat(a) => wrapped("(Float ", a, ")"),
            TokenValue::ConstString(a) => wrapped("(String \"", a, "\")"),
            TokenValue::Id(a) => wrapped("(Id ", a, ")"),
            TokenValue::LP0 => String::from_str("'(' LP0"),
            TokenValue::RP0 => String::from_str("')' RP0"),
            TokenValue::LP1 => String::from_str("'[' LP1"),
            TokenValue::RP1 => String::from_str("']' RP1"),
            TokenValue::LP2 => String::from_str("'{' LP2"),
            TokenValue::RP2 => String::from_str("'}' RP2"),
            TokenValue::LP3 => String::from_str("'<' LP3"),
            TokenValue::RP3 => String::from_str("'>' RP3"),
            TokenValue::COLON => String::from_str("':' COLON"),
            TokenValue::COMMA => String::from_str("',' COMMA"),
            TokenValue::DOT => String::from_str("'.' DOT"),
            TokenValue::KeyNil => String::from_str("nil"),
            TokenValue::KeyTrue => String::from_str("true"),
            TokenValue::KeyFalse => String::from_str("false"),
            TokenValue::_Eof => String::from_str("<!EOF!>"),
        }
    }
}

impl Token {
    /// The token as `[row:col value]`.
    pub fn text(&self) -> (r: String)
        ensures
            r@ == token_text(*self),
    {
        let mut s = String::from_str("[");
        let l = self.loc.text();
        s.append(l.as_str());
        s.append(" ");
        let v = self.val.text();
        s.append(v.as_str());
        s.append("]");
        s
    }
}

/// The tokens' texts, one per line.
pub fn text(tokens: &Vec<Token>) -> (r: String)
    ensures
        r@ == joined(tokens@.map_values(|t: Token| token_text(t))),
{
    let ghost lines = tokens@.map_values(|t: Token| token_text(t));
    let mut s = String::new();
    let mut k: usize = 0;
    while k < tokens.len()
        invariant
            0 <= k <= tokens@.len(),
            lines == tokens@.map_values(|t: Token| token_text(t)),
            s@ == joined(lines.subrange(0, k as int)),
        decreases tokens@.len() - k,
    {
        if k > 0 {
            s.append("\n");
        }
        let line = tokens[k].text();
        s.append(line.as_str());
        proof {
            let pre = lines.subrange(0, k + 1);
            assert(pre.drop_last() =~= lines.subrange(0, k as int));
            if k == 0 {
                assert(s@ =~= pre[0]);
            }
        }
        k = k + 1;
    }
    proof {
        assert(lines.subrange(0, tokens@.len() as int) =~= lines);
    }
    s
}

} // verus!
