use farvm::diag;

#[test]
fn fresh_collector_has_no_error() {
    let d = diag::make();
    assert!(!d.has_error());
    assert!(!diag::Object::new().has_error());
}

#[test]
fn pushed_error_is_reported() {
    let mut d = diag::make();
    d.push_error(3, 7, "unexpected character");
    assert!(d.has_error());
}
