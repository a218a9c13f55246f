use farvm::pool;
use farvm::tree::{Node, Token, TokenLoc, TokenValue};

#[test]
fn location_text() {
    assert_eq!(TokenLoc { row: 12, col: 0 }.emit(), "12:0");
    assert_eq!(TokenLoc { row: 4294967295, col: 907 }.emit(), "4294967295:907");
    assert_eq!(TokenLoc::default().emit(), "1:0");
}

#[test]
fn value_text_resolves_through_pool() {
    let mut p = pool::make();
    let a = p.add_str("name");
    let n = p.add_str("42");
    assert_eq!(TokenValue::Id(a).emit(&p), "(Id name)");
    assert_eq!(TokenValue::LiteralInteger(n).emit(&p), "(Integer 42)");
    assert_eq!(TokenValue::LiteralFloat(n).emit(&p), "(Float 42)");
    assert_eq!(TokenValue::Id(9).emit(&p), "(Id )");
    assert_eq!(TokenValue::LiteralString(String::from("hi")).emit(&p), "(String \"hi\")");
}

#[test]
fn fixed_value_texts() {
    let p = pool::make();
    assert_eq!(TokenValue::LP2.emit(&p), "{ LP2");
    assert_eq!(TokenValue::RP2.emit(&p), "} RP2");
    assert_eq!(TokenValue::ASSIGN.emit(&p), "<- ASSIGN");
    assert_eq!(TokenValue::QUOTE2.emit(&p), "\" QUOTE2");
    assert_eq!(TokenValue::KeyFor.emit(&p), "for");
    assert_eq!(TokenValue::_EOF.emit(&p), "<!EOF!>");
    assert_eq!(TokenValue::default(), TokenValue::_EOF);
}

#[test]
fn token_text() {
    let p = pool::make();
    let t = Token { loc: TokenLoc { row: 3, col: 15 }, val: TokenValue::COMMA };
    assert_eq!(t.emit(&p), "[3:15 , COMMA]");
    assert_eq!(Node::default().emit(&p), "(Node)");
}
