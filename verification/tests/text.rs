use docmerge::text::{decimal, same_text};

#[test]
fn decimal_writes_numbers() {
    assert_eq!(decimal(0), "0");
    assert_eq!(decimal(7), "7");
    assert_eq!(decimal(10), "10");
    assert_eq!(decimal(1234567890), "1234567890");
    assert_eq!(decimal(usize::MAX), usize::MAX.to_string());
}

#[test]
fn same_text_compares_strings() {
    assert!(same_text("path", "path"));
    assert!(same_text("", ""));
    assert!(!same_text("path", "paths"));
    assert!(!same_text("path", "pAth"));
    assert!(same_text("é", "é"));
}
