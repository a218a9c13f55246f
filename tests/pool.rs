use farvm::pool;

#[test]
fn interning_twice_gives_same_id() {
    let mut p = pool::make();
    let a = p.add_str("alpha");
    let b = p.add_str("alpha");
    assert_eq!(a, b);
    assert_eq!(p.len(), 1);
}

#[test]
fn ids_are_sequential_and_distinct() {
    let mut p = pool::Object::new();
    assert_eq!(p.add_str("a"), 0);
    assert_eq!(p.add_str("b"), 1);
    assert_eq!(p.add_str("a"), 0);
    assert_eq!(p.add_str("c"), 2);
    assert_eq!(p.add_str(""), 3);
    assert_eq!(p.add_str(""), 3);
}

#[test]
fn resolve_returns_interned_text() {
    let mut p = pool::make();
    let a = p.add_str("hello");
    let b = p.add_str("wörld");
    assert_eq!(p.str_at(a), "hello");
    assert_eq!(p.str_at(b), "wörld");
}

#[test]
fn resolve_unknown_id_is_empty() {
    let mut p = pool::make();
    assert_eq!(p.str_at(0), "");
    p.add_str("x");
    assert_eq!(p.str_at(1), "");
    assert_eq!(p.str_at(u32::MAX), "");
}

#[test]
fn texts_compare_byte_for_byte() {
    let mut p = pool::make();
    let a = p.add_str("Abc");
    let b = p.add_str("abc");
    let c = p.add_str("abc ");
    assert_ne!(a, b);
    assert_ne!(b, c);
}
