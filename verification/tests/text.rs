use den::text::{has_prefix, join2, join3, render_decimal, render_signed, same_text, slice};

#[test]
fn numbers_in_decimal() {
    for n in [0u64, 9, 10, 99, 100, 1234567890, u64::MAX] {
        assert_eq!(render_decimal(n), n.to_string());
    }
    for n in [0i64, 7, -1, -10, i64::MAX, i64::MIN] {
        assert_eq!(render_signed(n), n.to_string());
    }
}

#[test]
fn pieces_of_text() {
    assert_eq!(join2("a", "ü"), "aü");
    assert_eq!(join3("", "b", "c"), "bc");
    assert_eq!(slice("äbcd", 1, 3), "bc");
    assert!(same_text("äb", "äb"));
    assert!(!same_text("a", "ab"));
    assert!(has_prefix("/proc/1", "/proc"));
    assert!(!has_prefix("/pro", "/proc"));
    assert!(has_prefix("x", ""));
}
