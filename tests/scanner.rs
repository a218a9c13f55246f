use farvm::diag;
use farvm::lexer;
use farvm::pool;
use farvm::tree::{Lexer, Token, TokenValue};

fn scan_all(code: &str, p: &mut pool::Object) -> Vec<Token> {
    let mut lex = lexer::make(code);
    let mut d = diag::make();
    let mut out = Vec::new();
    loop {
        let t = lex.lexer_pass(p, &mut d);
        let end = t.val == TokenValue::_EOF;
        out.push(t);
        if end {
            return out;
        }
        assert!(out.len() <= code.len() + 1, "scanner does not progress");
    }
}

fn values(code: &str) -> Vec<TokenValue> {
    let mut p = pool::make();
    scan_all(code, &mut p).into_iter().map(|t| t.val).collect()
}

fn id_text(p: &pool::Object, v: &TokenValue) -> String {
    match v {
        TokenValue::Id(i) => p.str_at(*i),
        other => panic!("not an identifier: {:?}", other),
    }
}

#[test]
fn empty_input_is_end() {
    let mut p = pool::make();
    let toks = scan_all("", &mut p);
    assert_eq!(toks.len(), 1);
    assert_eq!(toks[0].val, TokenValue::_EOF);
    assert_eq!((toks[0].loc.row, toks[0].loc.col), (1, 0));
}

#[test]
fn blanks_and_comments_yield_only_end() {
    for code in ["   \t\n  ", "# only a comment", "  # one\n\t# two\n   ", "#\n#\n", "\n\n# x ( ) \"\n"] {
        let v = values(code);
        assert_eq!(v, vec![TokenValue::_EOF], "input {:?}", code);
    }
}

#[test]
fn assign_operator() {
    let mut p = pool::make();
    let toks = scan_all("<-", &mut p);
    assert_eq!(toks.len(), 2);
    assert_eq!(toks[0].val, TokenValue::ASSIGN);
    assert_eq!((toks[0].loc.row, toks[0].loc.col), (1, 1));
    assert_eq!(toks[1].val, TokenValue::_EOF);
}

#[test]
fn less_than_then_identifier() {
    let mut p = pool::make();
    let toks = scan_all("<x", &mut p);
    assert_eq!(toks.len(), 3);
    assert_eq!(toks[0].val, TokenValue::LP3);
    assert_eq!(id_text(&p, &toks[1].val), "x");
    assert_eq!((toks[1].loc.row, toks[1].loc.col), (1, 2));
    assert_eq!(toks[2].val, TokenValue::_EOF);
    assert_eq!(p.len(), 1);
}

#[test]
fn less_than_at_end_of_buffer() {
    assert_eq!(values("<"), vec![TokenValue::LP3, TokenValue::_EOF]);
    let mut p = pool::make();
    let toks = scan_all("< -", &mut p);
    assert_eq!(toks[0].val, TokenValue::LP3);
    assert_eq!(id_text(&p, &toks[1].val), "-");
    assert_eq!(toks[2].val, TokenValue::_EOF);
}

#[test]
fn string_escape_is_decoded() {
    let v = values("\"a\\tb\"");
    assert_eq!(v, vec![TokenValue::LiteralString(String::from("a\tb")), TokenValue::_EOF]);
    match &v[0] {
        TokenValue::LiteralString(s) => assert_eq!(s.chars().count(), 3),
        _ => unreachable!(),
    }
}

#[test]
fn string_escapes_all_kinds() {
    let v = values("\"\\n\\r\\0\\\"\\\\\\q\"");
    assert_eq!(v[0], TokenValue::LiteralString(String::from("\n\r\0\"\\q")));
}

#[test]
fn unterminated_string_keeps_its_text() {
    assert_eq!(values("\"abc"), vec![TokenValue::LiteralString(String::from("abc")), TokenValue::_EOF]);
    assert_eq!(values("\"ab\\"), vec![TokenValue::LiteralString(String::from("ab")), TokenValue::_EOF]);
}

#[test]
fn same_identifier_twice_same_id() {
    let mut p = pool::make();
    let toks = scan_all("foo bar foo", &mut p);
    assert_eq!(toks[0].val, toks[2].val);
    assert_ne!(toks[0].val, toks[1].val);
    assert_eq!(id_text(&p, &toks[0].val), "foo");
    assert_eq!(id_text(&p, &toks[1].val), "bar");
    assert_eq!(p.len(), 2);
}

#[test]
fn reserved_words_are_not_identifiers() {
    let v = values("auto for nil true false ~");
    assert_eq!(
        v,
        vec![
            TokenValue::KeyAuto,
            TokenValue::KeyFor,
            TokenValue::KeyNil,
            TokenValue::KeyTrue,
            TokenValue::KeyFalse,
            TokenValue::TILDE,
            TokenValue::_EOF,
        ]
    );
    assert_eq!(values("(nil)"), vec![TokenValue::LP0, TokenValue::KeyNil, TokenValue::RP0, TokenValue::_EOF]);
}

#[test]
fn word_containing_reserved_word_is_identifier() {
    let mut p = pool::make();
    let toks = scan_all("autox fo ~x", &mut p);
    assert_eq!(id_text(&p, &toks[0].val), "autox");
    assert_eq!(id_text(&p, &toks[1].val), "fo");
    assert_eq!(id_text(&p, &toks[2].val), "~x");
    assert_eq!(toks[3].val, TokenValue::_EOF);
}

#[test]
fn rows_and_columns_across_lines() {
    let mut p = pool::make();
    let toks = scan_all("a\nb", &mut p);
    assert_eq!(toks[0].loc.row, 1);
    assert_eq!(toks[0].loc.col, 1);
    assert_eq!(toks[1].loc.row, 2);
    assert_eq!(toks[1].loc.col, 1);
    assert_eq!(id_text(&p, &toks[1].val), "b");
}

#[test]
fn columns_count_every_character() {
    let mut p = pool::make();
    let toks = scan_all("  ab\t(\n  x", &mut p);
    assert_eq!((toks[0].loc.row, toks[0].loc.col), (1, 3));
    assert_eq!(toks[1].val, TokenValue::LP0);
    assert_eq!((toks[1].loc.row, toks[1].loc.col), (1, 6));
    assert_eq!((toks[2].loc.row, toks[2].loc.col), (2, 3));
}

#[test]
fn punctuation_leaves() {
    assert_eq!(
        values("()[]{}>@:,.="),
        vec![
            TokenValue::LP0,
            TokenValue::RP0,
            TokenValue::LP1,
            TokenValue::RP1,
            TokenValue::LP2,
            TokenValue::RP2,
            TokenValue::RP3,
            TokenValue::AT,
            TokenValue::COLON,
            TokenValue::COMMA,
            TokenValue::DOT,
            TokenValue::EQUAL,
            TokenValue::_EOF,
        ]
    );
}

#[test]
fn delimiter_ends_identifier_and_is_kept() {
    let mut p = pool::make();
    let toks = scan_all("a.b(c)", &mut p);
    let kinds: Vec<TokenValue> = toks.iter().map(|t| t.val.clone()).collect();
    assert_eq!(kinds.len(), 7);
    assert_eq!(id_text(&p, &kinds[0]), "a");
    assert_eq!(kinds[1], TokenValue::DOT);
    assert_eq!(id_text(&p, &kinds[2]), "b");
    assert_eq!(kinds[3], TokenValue::LP0);
    assert_eq!(id_text(&p, &kinds[4]), "c");
    assert_eq!(kinds[5], TokenValue::RP0);
    assert_eq!(kinds[6], TokenValue::_EOF);
    assert_eq!((toks[1].loc.row, toks[1].loc.col), (1, 2));
}

#[test]
fn identifier_then_less_than() {
    let mut p = pool::make();
    let toks = scan_all("a<-b", &mut p);
    assert_eq!(id_text(&p, &toks[0].val), "a");
    assert_eq!(toks[1].val, TokenValue::ASSIGN);
    assert_eq!(id_text(&p, &toks[2].val), "b");
    assert_eq!(toks[3].val, TokenValue::_EOF);
}

#[test]
fn identifier_absorbs_non_delimiters() {
    let mut p = pool::make();
    let toks = scan_all("a=b@c#d\"e f", &mut p);
    assert_eq!(id_text(&p, &toks[0].val), "a=b@c#d\"e");
    assert_eq!(id_text(&p, &toks[1].val), "f");
    assert_eq!(toks[2].val, TokenValue::_EOF);
}

#[test]
fn comment_ends_at_newline() {
    let mut p = pool::make();
    let toks = scan_all("# note (\nx # more", &mut p);
    assert_eq!(id_text(&p, &toks[0].val), "x");
    assert_eq!((toks[0].loc.row, toks[0].loc.col), (2, 1));
    assert_eq!(toks[1].val, TokenValue::_EOF);
}

#[test]
fn string_location_is_its_opening_quote() {
    let mut p = pool::make();
    let toks = scan_all(" \"hi\" x", &mut p);
    assert_eq!(toks[0].val, TokenValue::LiteralString(String::from("hi")));
    assert_eq!((toks[0].loc.row, toks[0].loc.col), (1, 2));
    assert_eq!((toks[1].loc.row, toks[1].loc.col), (1, 7));
}

#[test]
fn diagnostics_are_left_untouched() {
    let mut p = pool::make();
    let mut lex = lexer::make("x \"y");
    let mut d = diag::make();
    let _ = lex.lexer_pass(&mut p, &mut d);
    let _ = lex.lexer_pass(&mut p, &mut d);
    assert!(!d.has_error());
}

fn pull<L: Lexer>(l: &mut L, p: &mut pool::Object, d: &mut diag::Object) -> Vec<TokenValue> {
    let mut out = Vec::new();
    loop {
        let t = Lexer::lexer_pass(l, p, d);
        let end = t.val == TokenValue::_EOF;
        out.push(t.val);
        if end {
            return out;
        }
    }
}

#[test]
fn tokens_pulled_through_lexer_trait() {
    let mut p = pool::make();
    let mut d = diag::make();
    let mut lex = lexer::make("x <- nil");
    let v = pull(&mut lex, &mut p, &mut d);
    assert_eq!(v.len(), 4);
    assert_eq!(id_text(&p, &v[0]), "x");
    assert_eq!(v[1..].to_vec(), vec![TokenValue::ASSIGN, TokenValue::KeyNil, TokenValue::_EOF]);
}

#[test]
fn nul_byte_does_not_end_a_comment() {
    assert_eq!(values("# a\0b"), vec![TokenValue::_EOF]);
    assert_eq!(values("  \t\n# c\n # d"), vec![TokenValue::_EOF]);
    let mut p = pool::make();
    let toks = scan_all("# a\0b\nc", &mut p);
    assert_eq!(id_text(&p, &toks[0].val), "c");
    assert_eq!(toks[1].val, TokenValue::_EOF);
}
