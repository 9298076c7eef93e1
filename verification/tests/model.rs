use xv6sh::model::Error;

#[test]
fn error_carries_its_reason() {
    let e = Error::new("expected EOL");
    assert_eq!(e.reason(), "expected EOL");
    assert_eq!(e.to_string(), String::from("expected EOL"));
    assert_eq!(e.clone(), e);
    assert_ne!(e, Error::new("expected eol"));
}
