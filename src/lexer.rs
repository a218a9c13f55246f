//! The lexical scanner: a finite-state machine over the source bytes with a
//! single-character pushback slot, producing one token per call.
use vstd::prelude::*;
use vstd::string::StringSliceAdditionalSpecFns;
use crate::diag;
use crate::pool;
use crate::tree::{text_of, Lexer, Token, TokenLoc, TokenValue};
use crate::pool::{id_of, interned};

verus! {

/// Lexical mode of the scanner between two characters.
#[derive(Clone, Copy, Debug, PartialEq, Eq, Structural)]
pub enum Mode {
    First,
    Symbol2,
    Comment,
    Id,
    Str,
    StrSlash,
}

/// What a completed token is, independent of any pool: words carry their text.
pub enum Lexeme {
    Fixed(TokenValue),
    Word(Seq<char>),
    Text(Seq<char>),
    End,
}

/// The effect of feeding one character to the machine.
pub enum Step {
    /// Keep scanning in the given mode with the given accumulated text.
    Go(Mode, Seq<char>),
    /// The token is complete and the character belongs to it.
    Take(Lexeme),
    /// The token is complete and the character is pushed back.
    TakeBack(Lexeme),
}

/// The character that a source byte stands for.
pub open spec fn char_of(b: u8) -> char {
    b as char
}

/// Control characters and the space.
pub open spec fn is_blank(c: char) -> bool {
    c as u32 <= 32
}

/// Characters that end an identifier and are pushed back.
pub open spec fn is_delim(c: char) -> bool {
    c == '(' || c == ')' || c == '[' || c == ']' || c == '{' || c == '}' || c == '<' || c == '>'
        || c == ':' || c == '.' || c == ','
}

/// Characters that end a comment; the end of the buffer ends one too.
pub open spec fn ends_comment(c: char) -> bool {
    c == '\n'
}

/// The single-character tokens of the start mode.
pub open spec fn leaf_of(c: char) -> Option<TokenValue> {
    if c == '(' {
        Some(TokenValue::LP0)
    } else if c == ')' {
        Some(TokenValue::RP0)
    } else if c == '[' {
        Some(TokenValue::LP1)
    } else if c == ']' {
        Some(TokenValue::RP1)
    } else if c == '{' {
        Some(TokenValue::LP2)
    } else if c == '}' {
        Some(TokenValue::RP2)
    } else if c == '>' {
        Some(TokenValue::RP3)
    } else if c == '@' {
        Some(TokenValue::AT)
    } else if c == ':' {
        Some(TokenValue::COLON)
    } else if c == ',' {
        Some(TokenValue::COMMA)
    } else if c == '.' {
        Some(TokenValue::DOT)
    } else if c == '=' {
        Some(TokenValue::EQUAL)
    } else {
        None
    }
}

/// The character that an escape `\c` in a string literal stands for.
pub open spec fn unescape(c: char) -> char {
    if c == 't' {
        '\t'
    } else if c == 'n' {
        '\n'
    } else if c == 'r' {
        '\r'
    } else if c == '0' {
        '\0'
    } else {
        c
    }
}

/// The reserved word that `w` spells, if any.
pub open spec fn reserved(w: Seq<char>) -> Option<TokenValue> {
    if w == seq!['~'] {
        Some(TokenValue::TILDE)
    } else if w == seq!['a', 'u', 't', 'o'] {
        Some(TokenValue::KeyAuto)
    } else if w == seq!['f', 'o', 'r'] {
        Some(TokenValue::KeyFor)
    } else if w == seq!['n', 'i', 'l'] {
        Some(TokenValue::KeyNil)
    } else if w == seq!['t', 'r', 'u', 'e'] {
        Some(TokenValue::KeyTrue)
    } else if w == seq!['f', 'a', 'l', 's', 'e'] {
        Some(TokenValue::KeyFalse)
    } else {
        None
    }
}

/// A completed word: a reserved word, or an identifier.
pub open spec fn word_lexeme(w: Seq<char>) -> Lexeme {
    match reserved(w) {
        Some(v) => Lexeme::Fixed(v),
        None => Lexeme::Word(w),
    }
}

/// Whether the character, read in `mode`, is the first of a token.
pub open spec fn starts_token(mode: Mode, c: char) -> bool {
    mode == Mode::First && !is_blank(c) && c != '#'
}

/// The transition function of the machine.
pub open spec fn step(mode: Mode, raw: Seq<char>, c: char) -> Step {
    match mode {
        Mode::First => {
            if leaf_of(c) is Some {
                Step::Take(Lexeme::Fixed(leaf_of(c)->0))
            } else if c == '<' {
                Step::Go(Mode::Symbol2, raw.push('<'))
            } else if c == '"' {
                Step::Go(Mode::Str, raw)
            } else if c == '#' {
                Step::Go(Mode::Comment, raw)
            } else if is_blank(c) {
                Step::Go(Mode::First, raw)
            } else {
                Step::Go(Mode::Id, raw.push(c))
            }
        },
        Mode::Symbol2 => {
            if c == '-' {
                Step::Take(Lexeme::Fixed(TokenValue::ASSIGN))
            } else {
                Step::TakeBack(Lexeme::Fixed(TokenValue::LP3))
            }
        },
        Mode::Comment => {
            if ends_comment(c) {
                Step::Go(Mode::First, raw)
            } else {
                Step::Go(Mode::Comment, raw)
            }
        },
        Mode::Id => {
            if is_delim(c) {
                Step::TakeBack(word_lexeme(raw))
            } else if is_blank(c) {
                Step::Take(word_lexeme(raw))
            } else {
                Step::Go(Mode::Id, raw.push(c))
            }
        },
        Mode::Str => {
            if c == '\\' {
                Step::Go(Mode::StrSlash, raw)
            } else if c == '"' {
                Step::Take(Lexeme::Text(raw))
            } else {
                Step::Go(Mode::Str, raw.push(c))
            }
        },
        Mode::StrSlash => Step::Go(Mode::Str, raw.push(unescape(c))),
    }
}

/// What the machine yields when the buffer runs out in `mode`: an unfinished
/// word or string literal is completed with what was accumulated.
pub open spec fn finish(mode: Mode, raw: Seq<char>) -> Lexeme {
    match mode {
        Mode::First | Mode::Comment => Lexeme::End,
        Mode::Symbol2 => Lexeme::Fixed(TokenValue::LP3),
        Mode::Id => word_lexeme(raw),
        Mode::Str | Mode::StrSlash => Lexeme::Text(raw),
    }
}

/// The observable state of a scanner between two calls.
pub struct ScanView {
    pub code: Seq<u8>,
    pub i: int,
    pub row: int,
    pub col: int,
    pub back: Option<char>,
}

/// The result of one call: the token, where it starts, and the state after.
pub struct Outcome {
    pub lex: Lexeme,
    pub loc_row: int,
    pub loc_col: int,
    pub after: ScanView,
}

/// Row and column after consuming `c`: every character counts one column, and
/// a newline then moves to the next row at column zero.
pub open spec fn advance(row: int, col: int, c: char) -> (int, int) {
    if c == '\n' {
        (row + 1, 0)
    } else {
        (row, col + 1)
    }
}

/// Feeds `code[i..]` to the machine, from `mode` with accumulated text `raw`
/// and token location `loc`, until a token completes or the buffer runs out.
pub open spec fn run(
    code: Seq<u8>,
    i: int,
    row: int,
    col: int,
    mode: Mode,
    raw: Seq<char>,
    loc: (int, int),
) -> Outcome
    decreases code.len() - i,
{
    if i < 0 || i >= code.len() {
        Outcome {
            lex: finish(mode, raw),
            loc_row: loc.0,
            loc_col: loc.1,
            after: ScanView { code, i, row, col, back: None },
        }
    } else {
        let c = char_of(code[i]);
        let pos = advance(row, col, c);
        let loc2 = if starts_token(mode, c) { pos } else { loc };
        match step(mode, raw, c) {
            Step::Go(m, w) => run(code, i + 1, pos.0, pos.1, m, w, loc2),
            Step::Take(l) => Outcome {
                lex: l,
                loc_row: loc2.0,
                loc_col: loc2.1,
                after: ScanView { code, i: i + 1, row: pos.0, col: pos.1, back: None },
            },
            Step::TakeBack(l) => Outcome {
                lex: l,
                loc_row: loc2.0,
                loc_col: loc2.1,
                after: ScanView { code, i: i + 1, row: pos.0, col: pos.1, back: Some(c) },
            },
        }
    }
}

/// One call of the scanner: a pushed-back character is fed first, at the
/// current position, then the buffer.
pub open spec fn scan(s: ScanView) -> Outcome {
    let loc = (s.row, s.col);
    match s.back {
        Some(c) => match step(Mode::First, Seq::empty(), c) {
            Step::Go(m, w) => run(s.code, s.i, s.row, s.col, m, w, loc),
            Step::Take(l) => Outcome {
                lex: l,
                loc_row: s.row,
                loc_col: s.col,
                after: ScanView { back: None, ..s },
            },
            Step::TakeBack(l) => Outcome { lex: l, loc_row: s.row, loc_col: s.col, after: s },
        },
        None => run(s.code, s.i, s.row, s.col, Mode::First, Seq::empty(), loc),
    }
}

/// The state of a scanner freshly made over `code`: row 1, column 0. Every
/// line starts at column 0, so that the first character of any line,
/// the first included, is at column 1.
pub open spec fn fresh(code: Seq<u8>) -> ScanView {
    ScanView { code, i: 0, row: 1, col: 0, back: None }
}

/// `v` is the token value for `l`, given the pool before (`p0`) and after (`p1`).
pub open spec fn value_of(v: TokenValue, l: Lexeme, p0: Seq<Seq<char>>, p1: Seq<Seq<char>>) -> bool {
    match l {
        Lexeme::Fixed(t) => v == t && p1 == p0,
        Lexeme::Word(w) => v == TokenValue::Id(id_of(p0, w) as u32) && p1 == interned(p0, w),
        Lexeme::Text(t) => (match v {
            TokenValue::LiteralString(s) => s@ == t,
            _ => false,
        }) && p1 == p0,
        Lexeme::End => v == TokenValue::_EOF && p1 == p0,
    }
}

/// Position `k` of `code` lies in a comment: a `#` stands at some `j <= k`
/// with no newline from `j` up to `k`.
pub open spec fn in_comment(code: Seq<u8>, k: int) -> bool {
    exists|j: int|
        0 <= j <= k && char_of(#[trigger] code[j]) == '#' && forall|m: int|
            j <= m < k ==> !ends_comment(char_of(#[trigger] code[m]))
}

/// `code` holds nothing but blanks and comments.
pub open spec fn only_trivia(code: Seq<u8>) -> bool {
    forall|k: int| 0 <= k < code.len() ==> is_blank(char_of(#[trigger] code[k])) || in_comment(code, k)
}

/// Position `k` is in a comment opened at or after `i`, or, when the scanner
/// is already in a comment at `i` (`open`), in that comment.
spec fn covered(code: Seq<u8>, i: int, open: bool, k: int) -> bool {
    (exists|j: int|
        i <= j <= k && char_of(#[trigger] code[j]) == '#' && forall|m: int|
            j <= m < k ==> !ends_comment(char_of(#[trigger] code[m]))) || (open && forall|m: int|
        i <= m < k ==> !ends_comment(char_of(#[trigger] code[m])))
}

proof fn lemma_run_trivia(
    code: Seq<u8>,
    i: int,
    row: int,
    col: int,
    mode: Mode,
    raw: Seq<char>,
    loc: (int, int),
)
    requires
        0 <= i <= code.len(),
        mode == Mode::First || mode == Mode::Comment,
        forall|k: int|
            i <= k < code.len() ==> is_blank(char_of(#[trigger] code[k])) || covered(
                code,
                i,
                mode == Mode::Comment,
                k,
            ),
    ensures
        run(code, i, row, col, mode, raw, loc).lex == Lexeme::End,
        run(code, i, row, col, mode, raw, loc).after.i == code.len(),
        run(code, i, row, col, mode, raw, loc).after.back is None,
        run(code, i, row, col, mode, raw, loc).after.code == code,
    decreases code.len() - i,
{
    if i < code.len() {
        let c = char_of(code[i]);
        let pos = advance(row, col, c);
        let loc2 = if starts_token(mode, c) { pos } else { loc };
        let next = if mode == Mode::First {
            if c == '#' { Mode::Comment } else { Mode::First }
        } else {
            if ends_comment(c) { Mode::First } else { Mode::Comment }
        };
        if mode == Mode::First && !is_blank(c) {
            assert(covered(code, i, false, i));
            assert(c == '#');
        }
        assert(step(mode, raw, c) == Step::Go(next, raw));
        assert forall|k: int|
            i + 1 <= k < code.len() implies is_blank(char_of(#[trigger] code[k])) || covered(
                code,
                i + 1,
                next == Mode::Comment,
                k,
            ) by {
            if !is_blank(char_of(code[k])) {
                assert(covered(code, i, mode == Mode::Comment, k));
                if exists|j: int|
                    i <= j <= k && char_of(#[trigger] code[j]) == '#' && forall|m: int|
                        j <= m < k ==> !ends_comment(char_of(#[trigger] code[m])) {
                    let j = choose|j: int|
                        i <= j <= k && char_of(#[trigger] code[j]) == '#' && forall|m: int|
                            j <= m < k ==> !ends_comment(char_of(#[trigger] code[m]));
                    if j == i {
                        assert(!ends_comment(char_of(code[i])));
                        assert(next == Mode::Comment);
                    } else {
                        assert(covered(code, i + 1, next == Mode::Comment, k));
                    }
                } else {
                    assert(mode == Mode::Comment);
                    assert(!ends_comment(char_of(code[i])));
                }
            }
        }
        lemma_run_trivia(code, i + 1, pos.0, pos.1, next, raw, loc2);
    }
}

/// A buffer of blanks and comments alone yields the end-of-input token on the
/// first call, with the whole buffer consumed and nothing pushed back, so
/// that it is the only token.
pub proof fn lemma_trivia_yields_end(code: Seq<u8>)
    requires
        only_trivia(code),
    ensures
        scan(fresh(code)).lex == Lexeme::End,
        scan(fresh(code)).after.i == code.len(),
        scan(fresh(code)).after.back is None,
        scan(scan(fresh(code)).after).lex == Lexeme::End,
{
    assert forall|k: int|
        0 <= k < code.len() implies is_blank(char_of(#[trigger] code[k])) || covered(
            code,
            0,
            false,
            k,
        ) by {
        if !is_blank(char_of(code[k])) {
            assert(in_comment(code, k));
        }
    }
    lemma_run_trivia(code, 0, 1, 0, Mode::First, Seq::empty(), (1, 0));
}

/// A pushed-back character is the last byte consumed from the buffer.
pub open spec fn back_is_last_read(s: ScanView) -> bool {
    &&& 0 <= s.i <= s.code.len()
    &&& s.back is Some ==> s.i >= 1 && s.back->0 == char_of(s.code[s.i - 1])
}

proof fn lemma_run_back(
    code: Seq<u8>,
    i: int,
    row: int,
    col: int,
    mode: Mode,
    raw: Seq<char>,
    loc: (int, int),
)
    requires
        0 <= i <= code.len(),
    ensures
        run(code, i, row, col, mode, raw, loc).after.code == code,
        i <= run(code, i, row, col, mode, raw, loc).after.i,
        back_is_last_read(run(code, i, row, col, mode, raw, loc).after),
    decreases code.len() - i,
{
    if i < code.len() {
        let c = char_of(code[i]);
        let pos = advance(row, col, c);
        let loc2 = if starts_token(mode, c) { pos } else { loc };
        match step(mode, raw, c) {
            Step::Go(m, w) => lemma_run_back(code, i + 1, pos.0, pos.1, m, w, loc2),
            _ => {},
        }
    }
}

/// The pushback slot never loses or repeats a character: from any state in
/// which it holds at most the last byte read, one call leaves it holding at
/// most the last byte read, over the same buffer, with the cursor never moved
/// back. So a pushed-back character is replayed by the next call at the
/// position where it was read, and the buffer resumes after it.
pub proof fn lemma_pushback_is_last_read(s: ScanView)
    requires
        back_is_last_read(s),
    ensures
        back_is_last_read(scan(s).after),
        scan(s).after.code == s.code,
        s.i <= scan(s).after.i,
{
    let loc = (s.row, s.col);
    match s.back {
        Some(c) => match step(Mode::First, Seq::empty(), c) {
            Step::Go(m, w) => lemma_run_back(s.code, s.i, s.row, s.col, m, w, loc),
            _ => {},
        },
        None => lemma_run_back(s.code, s.i, s.row, s.col, Mode::First, Seq::empty(), loc),
    }
}

/// Characters that may continue a word.
pub open spec fn is_word_char(c: char) -> bool {
    !is_blank(c) && !is_delim(c)
}

/// Characters that may start a word.
pub open spec fn is_word_start(c: char) -> bool {
    is_word_char(c) && leaf_of(c) is None && c != '"' && c != '#'
}

/// `w` is spelled by `code` from position `i`, and ends there as a whole
/// word: at the end of the buffer, a blank or a delimiter.
pub open spec fn whole_word_at(code: Seq<u8>, i: int, w: Seq<char>) -> bool {
    &&& 0 <= i
    &&& i + w.len() <= code.len()
    &&& forall|k: int| 0 <= k < w.len() ==> char_of(#[trigger] code[i + k]) == w[k]
    &&& forall|k: int| 0 <= k < w.len() ==> is_word_char(#[trigger] w[k])
    &&& (i + w.len() == code.len() || !is_word_char(char_of(code[i + w.len()])))
}

proof fn lemma_run_word(
    code: Seq<u8>,
    i: int,
    row: int,
    col: int,
    raw: Seq<char>,
    w: Seq<char>,
    loc: (int, int),
)
    requires
        whole_word_at(code, i, w),
    ensures
        run(code, i, row, col, Mode::Id, raw, loc).lex == word_lexeme(raw + w),
    decreases w.len(),
{
    if w.len() == 0 {
        assert(raw + w =~= raw);
    } else {
        let c = char_of(code[i]);
        assert(char_of(code[i + 0]) == w[0]);
        assert(c == w[0]);
        assert(is_word_char(w[0]));
        let pos = advance(row, col, c);
        let rest = w.drop_first();
        assert(whole_word_at(code, i + 1, rest)) by {
            assert forall|k: int| 0 <= k < rest.len() implies char_of(#[trigger] code[i + 1 + k])
                == rest[k] by {
                assert(char_of(code[i + (k + 1)]) == w[k + 1]);
            }
            assert forall|k: int| 0 <= k < rest.len() implies is_word_char(#[trigger] rest[k]) by {
                assert(is_word_char(w[k + 1]));
            }
        }
        lemma_run_word(code, i + 1, pos.0, pos.1, raw.push(c), rest, loc);
        assert(raw.push(c) + rest =~= raw + w);
    }
}

/// A whole word read from the start of a token yields its reserved-word token
/// when it spells one, and never an identifier then; any other whole word,
/// such as one that merely begins with a reserved word, yields an identifier
/// carrying exactly its text.
pub proof fn lemma_whole_word(code: Seq<u8>, i: int, row: int, col: int, w: Seq<char>)
    requires
        whole_word_at(code, i, w),
        w.len() > 0,
        is_word_start(w[0]),
    ensures
        scan(ScanView { code, i, row, col, back: None }).lex == word_lexeme(w),
        reserved(w) is Some ==> scan(ScanView { code, i, row, col, back: None }).lex == Lexeme::Fixed(
            reserved(w)->0,
        ),
        reserved(w) is None ==> scan(ScanView { code, i, row, col, back: None }).lex
            == Lexeme::Word(w),
{
    let c = char_of(code[i]);
    assert(char_of(code[i + 0]) == w[0]);
    assert(c == w[0]);
    let pos = advance(row, col, c);
    let rest = w.drop_first();
    assert(step(Mode::First, Seq::empty(), c) == Step::Go(Mode::Id, seq![c]));
    assert(whole_word_at(code, i + 1, rest)) by {
        assert forall|k: int| 0 <= k < rest.len() implies char_of(#[trigger] code[i + 1 + k])
            == rest[k] by {
            assert(char_of(code[i + (k + 1)]) == w[k + 1]);
        }
        assert forall|k: int| 0 <= k < rest.len() implies is_word_char(#[trigger] rest[k]) by {
            assert(is_word_char(w[k + 1]));
        }
    }
    lemma_run_word(code, i + 1, pos.0, pos.1, seq![c], rest, pos);
    assert(seq![c] + rest =~= w);
}

/// Where the machine goes after one character.
enum JumpTo {
    Go(Mode),
    Take(TokenValue),
}

/// A scanner over one source buffer, for one left-to-right pass.
pub struct Object {
    code: Vec<u8>,
    i: usize,
    row: u32,
    col: u32,
    take_loc: TokenLoc,
    take_raw: Vec<char>,
    back_char: Option<char>,
}

impl View for Object {
    type V = ScanView;

    closed spec fn view(&self) -> ScanView {
        ScanView {
            code: self.code@,
            i: self.i as int,
            row: self.row as int,
            col: self.col as int,
            back: self.back_char,
        }
    }
}

/// A scanner at the start of `code`, at row 1 and column 0, so that the
/// first character read is at column 1 as on every other line.
pub fn make(code: &str) -> (r: Object)
    requires
        code.spec_bytes().len() < u32::MAX,
    ensures
        r.wf(),
        r@ == fresh(code.spec_bytes()),
{
    Object {
        code: vstd::slice::slice_to_vec(code.as_bytes()),
        i: 0,
        row: 1,
        col: 0,
        take_loc: TokenLoc { row: 1, col: 0 },
        take_raw: Vec::new(),
        back_char: None,
    }
}

impl Object {
    /// The cursor lies within the buffer, and row and column stay below the
    /// number of characters consumed, so they fit in `u32`.
    pub closed spec fn wf(&self) -> bool {
        &&& self.code@.len() < u32::MAX
        &&& self.i <= self.code@.len()
        &&& self.row <= self.i + 1
        &&& self.col <= self.i
    }

    /// One character fed in `m` took the scanner from `s0` to `s1`, returning
    /// `r`, with the pool going from `p0` to `p1`.
    spec fn stepped(
        s0: Object,
        s1: Object,
        m: Mode,
        a: char,
        r: JumpTo,
        p0: Seq<Seq<char>>,
        p1: Seq<Seq<char>>,
    ) -> bool {
        &&& s1.code == s0.code
        &&& s1.i == s0.i
        &&& s1.row == s0.row
        &&& s1.col == s0.col
        &&& s1.take_loc == if starts_token(m, a) {
            TokenLoc { row: s0.row, col: s0.col }
        } else {
            s0.take_loc
        }
        &&& match step(m, s0.take_raw@, a) {
            Step::Go(m2, w) => r == JumpTo::Go(m2) && s1.take_raw@ == w && s1.back_char
                == s0.back_char && p1 == p0,
            Step::Take(l) => r is Take && value_of(r->Take_0, l, p0, p1) && s1.back_char
                == s0.back_char && s1.take_raw@ == s0.take_raw@,
            Step::TakeBack(l) => r is Take && value_of(r->Take_0, l, p0, p1) && s1.back_char
                == Some(a) && s1.take_raw@ == s0.take_raw@,
        }
    }

    fn now_are_token_loc(&mut self)
        ensures
            *final(self) == (Object {
                take_loc: TokenLoc { row: old(self).row, col: old(self).col },
                ..*old(self)
            }),
    {
        self.take_loc = TokenLoc { row: self.row, col: self.col };
    }

    fn reset_take_raw(&mut self)
        ensures
            *final(self) == (Object { take_raw: final(self).take_raw, ..*old(self) }),
            final(self).take_raw@ == Seq::<char>::empty(),
    {
        self.take_raw = Vec::new();
    }

    fn take_raw_push(&mut self, a: char)
        ensures
            *final(self) == (Object { take_raw: final(self).take_raw, ..*old(self) }),
            final(self).take_raw@ == old(self).take_raw@.push(a),
    {
        self.take_raw.push(a);
    }

    fn take_string(&self) -> (r: TokenValue)
        ensures
            r matches TokenValue::LiteralString(s) && s@ == self.take_raw@,
    {
        TokenValue::LiteralString(text_of(&self.take_raw))
    }

    fn take_pool_id(&self, pool: &mut pool::Object) -> (r: pool::Id)
        requires
            old(pool).wf(),
            old(pool)@.len() < u32::MAX,
        ensures
            final(pool).wf(),
            final(pool)@ == interned(old(pool)@, self.take_raw@),
            r == id_of(old(pool)@, self.take_raw@),
    {
        let s = text_of(&self.take_raw);
        pool.add_str(s.as_str())
    }

    /// Whether the accumulated text spells `w`.
    fn raw_is(&self, w: &[char]) -> (r: bool)
        ensures
            r == (self.take_raw@ == w@),
    {
        if self.take_raw.len() != w.len() {
            return false;
        }
        let mut k: usize = 0;
        while k < w.len()
            invariant
                self.take_raw@.len() == w@.len(),
                0 <= k <= w@.len(),
                forall|j: int| 0 <= j < k ==> self.take_raw@[j] == w@[j],
            decreases w@.len() - k,
        {
            if self.take_raw[k] != w[k] {
                return false;
            }
            k = k + 1;
        }
        proof {
            assert(self.take_raw@ =~= w@);
        }
        true
    }

    fn match_id_by_take(&self, pool: &mut pool::Object) -> (r: TokenValue)
        requires
            old(pool).wf(),
            old(pool)@.len() < u32::MAX,
        ensures
            final(pool).wf(),
            value_of(r, word_lexeme(self.take_raw@), old(pool)@, final(pool)@),
    {
        let tilde = ['~'];
        let auto = ['a', 'u', 't', 'o'];
        let for_ = ['f', 'o', 'r'];
        let nil = ['n', 'i', 'l'];
        let true_ = ['t', 'r', 'u', 'e'];
        let false_ = ['f', 'a', 'l', 's', 'e'];
        proof {
            assert(tilde@ =~= seq!['~']);
            assert(auto@ =~= seq!['a', 'u', 't', 'o']);
            assert(for_@ =~= seq!['f', 'o', 'r']);
            assert(nil@ =~= seq!['n', 'i', 'l']);
            assert(true_@ =~= seq!['t', 'r', 'u', 'e']);
            assert(false_@ =~= seq!['f', 'a', 'l', 's', 'e']);
        }
        if self.raw_is(&tilde) {
            TokenValue::TILDE
        } else if self.raw_is(&auto) {
            TokenValue::KeyAuto
        } else if self.raw_is(&for_) {
            TokenValue::KeyFor
        } else if self.raw_is(&nil) {
            TokenValue::KeyNil
        } else if self.raw_is(&true_) {
            TokenValue::KeyTrue
        } else if self.raw_is(&false_) {
            TokenValue::KeyFalse
        } else {
            TokenValue::Id(self.take_pool_id(pool))
        }
    }
    fn back_one(&mut self, a: char)
        requires
            old(self).back_char is None,
        ensures
            *final(self) == (Object { back_char: Some(a), ..*old(self) }),
    {
        self.back_char = Some(a);
    }

    fn pop_back(&mut self) -> (r: char)
        requires
            old(self).back_char is Some,
        ensures
            r == old(self).back_char->0,
            *final(self) == (Object { back_char: None, ..*old(self) }),
    {
        let a = self.back_char.unwrap();
        self.back_char = None;
        a
    }

    fn has_back(&self) -> (r: bool)
        ensures
            r == self.back_char is Some,
    {
        self.back_char.is_some()
    }

    fn on_comment(&self, a: char) -> (r: JumpTo)
        ensures
            Self::stepped(*self, *self, Mode::Comment, a, r, Seq::empty(), Seq::empty()),
    {
        match a {
            '\n' => JumpTo::Go(Mode::First),
            _ => JumpTo::Go(Mode::Comment),
        }
    }

    fn on_id(&mut self, a: char, pool: &mut pool::Object) -> (r: JumpTo)
        requires
            old(self).back_char is None,
            old(pool).wf(),
            old(pool)@.len() < u32::MAX,
        ensures
            final(pool).wf(),
            Self::stepped(*old(self), *final(self), Mode::Id, a, r, old(pool)@, final(pool)@),
    {
        match a {
            '(' | ')' | '[' | ']' | '{' | '}' | '<' | '>' | ':' | '.' | ',' => {
                self.back_one(a);
            },
            _ => {
                if a as u32 > 32 {
                    self.take_raw_push(a);
                    return JumpTo::Go(Mode::Id);
                }
            },
        }
        JumpTo::Take(self.match_id_by_take(pool))
    }

    fn on_string_slash(&mut self, a: char) -> (r: JumpTo)
        ensures
            Self::stepped(*old(self), *final(self), Mode::StrSlash, a, r, Seq::empty(), Seq::empty()),
    {
        match a {
            't' => self.take_raw_push('\t'),
            'n' => self.take_raw_push('\n'),
            'r' => self.take_raw_push('\r'),
            '0' => self.take_raw_push('\0'),
            _ => self.take_raw_push(a),
        }
        JumpTo::Go(Mode::Str)
    }

    fn on_string(&mut self, a: char) -> (r: JumpTo)
        ensures
            Self::stepped(*old(self), *final(self), Mode::Str, a, r, Seq::empty(), Seq::empty()),
    {
        match a {
            '\\' => JumpTo::Go(Mode::StrSlash),
            '"' => JumpTo::Take(self.take_string()),
            _ => {
                self.take_raw_push(a);
                JumpTo::Go(Mode::Str)
            },
        }
    }

    fn on_symbol2(&mut self, a: char) -> (r: JumpTo)
        requires
            old(self).back_char is None,
        ensures
            Self::stepped(*old(self), *final(self), Mode::Symbol2, a, r, Seq::empty(), Seq::empty()),
    {
        match a {
            '-' => JumpTo::Take(TokenValue::ASSIGN),
            _ => {
                self.back_one(a);
                JumpTo::Take(TokenValue::LP3)
            },
        }
    }

    fn on_first(&mut self, a: char) -> (r: JumpTo)
        ensures
            Self::stepped(*old(self), *final(self), Mode::First, a, r, Seq::empty(), Seq::empty()),
    {
        let leaf = match a {
            '(' => Some(TokenValue::LP0),
            ')' => Some(TokenValue::RP0),
            '[' => Some(TokenValue::LP1),
            ']' => Some(TokenValue::RP1),
            '{' => Some(TokenValue::LP2),
            '}' => Some(TokenValue::RP2),
            '>' => Some(TokenValue::RP3),
            '@' => Some(TokenValue::AT),
            ':' => Some(TokenValue::COLON),
            ',' => Some(TokenValue::COMMA),
            '.' => Some(TokenValue::DOT),
            '=' => Some(TokenValue::EQUAL),
            _ => None,
        };
        if let Some(v) = leaf {
            self.now_are_token_loc();
            return JumpTo::Take(v);
        }
        match a {
            '<' => {
                self.now_are_token_loc();
                self.take_raw_push(a);
                JumpTo::Go(Mode::Symbol2)
            },
            '"' => {
                self.now_are_token_loc();
                JumpTo::Go(Mode::Str)
            },
            '#' => JumpTo::Go(Mode::Comment),
            _ => {
                if a as u32 > 32 {
                    self.now_are_token_loc();
                    self.take_raw_push(a);
                    JumpTo::Go(Mode::Id)
                } else {
                    JumpTo::Go(Mode::First)
                }
            },
        }
    }

    /// Feeds one character to the machine in mode `now`.
    fn jump(&mut self, a: char, now: Mode, pool: &mut pool::Object) -> (r: JumpTo)
        requires
            old(self).back_char is None,
            old(pool).wf(),
            old(pool)@.len() < u32::MAX,
        ensures
            final(pool).wf(),
            Self::stepped(*old(self), *final(self), now, a, r, old(pool)@, final(pool)@),
    {
        match now {
            Mode::First => self.on_first(a),
            Mode::Symbol2 => self.on_symbol2(a),
            Mode::Comment => self.on_comment(a),
            Mode::Id => self.on_id(a, pool),
            Mode::Str => self.on_string(a),
            Mode::StrSlash => self.on_string_slash(a),
        }
    }

    /// What the machine yields in mode `now` when the buffer runs out.
    fn on_end(&self, now: Mode, pool: &mut pool::Object) -> (r: TokenValue)
        requires
            old(pool).wf(),
            old(pool)@.len() < u32::MAX,
        ensures
            final(pool).wf(),
            value_of(r, finish(now, self.take_raw@), old(pool)@, final(pool)@),
    {
        match now {
            Mode::First | Mode::Comment => TokenValue::_EOF,
            Mode::Symbol2 => TokenValue::LP3,
            Mode::Id => self.match_id_by_take(pool),
            Mode::Str | Mode::StrSlash => self.take_string(),
        }
    }

    /// Consumes the next byte of the buffer, keeping row and column.
    fn get_char_by_pass(&mut self) -> (r: char)
        requires
            old(self).wf(),
            old(self).i < old(self).code@.len(),
        ensures
            final(self).wf(),
            r == char_of(old(self).code@[old(self).i as int]),
            final(self).i == old(self).i + 1,
            (final(self).row as int, final(self).col as int) == advance(
                old(self).row as int,
                old(self).col as int,
                r,
            ),
            final(self).code == old(self).code,
            final(self).take_loc == old(self).take_loc,
            final(self).take_raw == old(self).take_raw,
            final(self).back_char == old(self).back_char,
    {
        let a = self.code[self.i] as char;
        self.i = self.i + 1;
        if a == '\n' {
            self.row = self.row + 1;
            self.col = 0;
        } else {
            self.col = self.col + 1;
        }
        a
    }
    /// Produces the next token. A pushed-back character is fed first; then
    /// the buffer, one byte at a time, until a mode completes a token; when
    /// the buffer runs out, an unfinished token is completed with what was
    /// accumulated, and otherwise the end-of-input token is returned.
    /// Identifiers are interned in `pool`; no diagnostic is reported.
    pub fn lexer_pass(&mut self, pool: &mut pool::Object, diag: &mut diag::Object) -> (r: Token)
        requires
            old(self).wf(),
            old(pool).wf(),
            old(pool)@.len() < u32::MAX,
        ensures
            final(self).wf(),
            final(pool).wf(),
            final(self)@ == scan(old(self)@).after,
            r.loc.row as int == scan(old(self)@).loc_row,
            r.loc.col as int == scan(old(self)@).loc_col,
            value_of(r.val, scan(old(self)@).lex, old(pool)@, final(pool)@),
            *final(diag) == *old(diag),
    {
        let ghost target = scan(self@);
        let mut to = Mode::First;
        self.now_are_token_loc();
        self.reset_take_raw();
        if self.has_back() {
            let a = self.pop_back();
            match self.jump(a, to, pool) {
                JumpTo::Take(val) => {
                    return Token { loc: self.take_loc, val };
                },
                JumpTo::Go(m) => {
                    to = m;
                },
            }
        }
        while self.i < self.code.len()
            invariant
                self.wf(),
                self.code@ == old(self).code@,
                self.back_char is None,
                pool.wf(),
                pool@ == old(pool)@,
                pool@.len() < u32::MAX,
                target == scan(old(self)@),
                run(
                    self.code@,
                    self.i as int,
                    self.row as int,
                    self.col as int,
                    to,
                    self.take_raw@,
                    (self.take_loc.row as int, self.take_loc.col as int),
                ) == target,
            decreases self.code@.len() - self.i,
        {
            let a = self.get_char_by_pass();
            let r = self.jump(a, to, pool);
            match r {
                JumpTo::Take(val) => {
                    return Token { loc: self.take_loc, val };
                },
                JumpTo::Go(m) => {
                    to = m;
                },
            }
        }
        let val = self.on_end(to, pool);
        Token { loc: self.take_loc, val }
    }
} // impl Object

impl Lexer for Object {
    open spec fn ready(&self) -> bool {
        self.wf()
    }

    fn lexer_pass(&mut self, pool: &mut pool::Object, diag: &mut diag::Object) -> (r: Token) {
        let ghost p0 = pool@;
        let r = Object::lexer_pass(self, pool, diag);
        proof {
            let o = scan(old(self)@);
            match o.lex {
                Lexeme::Word(w) => {
                    assert(interned(p0, w) == p0 || interned(p0, w) == p0.push(w));
                    assert(p0.is_prefix_of(p0.push(w)));
                },
                _ => {},
            }
            assert(p0.is_prefix_of(p0));
        }
        r
    }
}

} // verus!
