use farvm::batch::node;
use farvm::batch::token::{build as build_tokens, text};
use farvm::batch::{build, Error, Node, Token, TokenLoc, TokenValue};

fn scan(code: &str) -> Vec<Token> {
    let mut errors: Vec<Error> = Vec::new();
    let t = build_tokens(&String::from(code), &mut errors);
    assert!(errors.is_empty());
    t
}

fn vals(code: &str) -> Vec<TokenValue> {
    scan(code).into_iter().map(|t| t.val).collect()
}

fn s(x: &str) -> String {
    String::from(x)
}

#[test]
fn empty_text_is_only_end() {
    let t = scan("");
    assert_eq!(t.len(), 1);
    assert_eq!(t[0].val, TokenValue::_Eof);
    assert_eq!(t[0].loc, TokenLoc { row: 1, col: 0 });
}

#[test]
fn numbers_words_and_leaves() {
    assert_eq!(
        vals("x: 12, 3.5 (nil true false)"),
        vec![
            TokenValue::Id(s("x")),
            TokenValue::COLON,
            TokenValue::ConstInteger(s("12")),
            TokenValue::COMMA,
            TokenValue::ConstFloat(s("3.5")),
            TokenValue::LP0,
            TokenValue::KeyNil,
            TokenValue::KeyTrue,
            TokenValue::KeyFalse,
            TokenValue::RP0,
            TokenValue::_Eof,
        ]
    );
}

#[test]
fn ending_character_is_read_again() {
    assert_eq!(
        vals("12abc 1.2.3"),
        vec![
            TokenValue::ConstInteger(s("12")),
            TokenValue::Id(s("abc")),
            TokenValue::ConstFloat(s("1.2")),
            TokenValue::DOT,
            TokenValue::ConstInteger(s("3")),
            TokenValue::_Eof,
        ]
    );
    assert_eq!(vals("a<b"), vec![TokenValue::Id(s("a")), TokenValue::LP3, TokenValue::Id(s("b")), TokenValue::_Eof]);
}

#[test]
fn minus_prefixes_numbers_and_words() {
    assert_eq!(
        vals("-5 -x -"),
        vec![TokenValue::ConstInteger(s("-5")), TokenValue::Id(s("-x")), TokenValue::_Eof]
    );
}

#[test]
fn strings_and_comments() {
    assert_eq!(
        vals("\"a b\" # note\n\"open"),
        vec![TokenValue::ConstString(s("a b")), TokenValue::ConstString(s("open")), TokenValue::_Eof]
    );
    assert_eq!(vals("# only\n  "), vec![TokenValue::_Eof]);
}

#[test]
fn locations_of_tokens() {
    let t = scan("ab\n (c");
    assert_eq!(t[0].loc, TokenLoc { row: 1, col: 1 });
    assert_eq!(t[1].loc, TokenLoc { row: 2, col: 2 });
    assert_eq!(t[2].loc, TokenLoc { row: 2, col: 3 });
    assert_eq!(t[3].val, TokenValue::_Eof);
    assert_eq!(t[3].loc, TokenLoc { row: 2, col: 3 });
}

#[test]
fn token_list_text() {
    let t = scan("f(1)");
    assert_eq!(text(&t), "[1:1 (Id f)]\n[1:2 '(' LP0]\n[1:3 (Integer 1)]\n[1:4 ')' RP0]\n[1:4 <!EOF!>]");
    assert_eq!(text(&Vec::new()), "");
    assert_eq!(TokenLoc { row: -3, col: 7 }.text(), "-3:7");
    assert_eq!(TokenValue::ConstString(s("q")).text(), "(String \"q\")");
    assert_eq!(TokenValue::ConstFloat(s("0.5")).text(), "(Float 0.5)");
    assert_eq!(TokenLoc::default(), TokenLoc { row: 0, col: 0 });
}

#[test]
fn tree_of_text_is_empty() {
    let (root, errors) = build(&String::from("x <- 1"));
    assert!(matches!(root, Node::Empty));
    assert!(errors.is_empty());
    assert_eq!(root.text(), "(None)");
    let mut e: Vec<Error> = Vec::new();
    assert!(matches!(node::build(&scan("a"), &mut e), Node::Empty));
    assert!(matches!(Node::default(), Node::Empty));
}
