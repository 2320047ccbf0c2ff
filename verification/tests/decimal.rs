use nautilus_mint::decimal::{decimal_len, decimal_string, push_fixed};

#[test]
fn test_decimal_string() {
    assert_eq!(decimal_string(0), "0");
    assert_eq!(decimal_string(7), "7");
    assert_eq!(decimal_string(10), "10");
    assert_eq!(decimal_string(1234567890), "1234567890");
    assert_eq!(decimal_string(u64::MAX), "18446744073709551615");
}

#[test]
fn test_decimal_len() {
    assert_eq!(decimal_len(0), 1);
    assert_eq!(decimal_len(99), 2);
    assert_eq!(decimal_len(100), 3);
    assert_eq!(decimal_len(u64::MAX), 20);
}

#[test]
fn test_push_fixed() {
    let mut s = String::from("x=");
    push_fixed(&mut s, 123, 5);
    assert_eq!(s, "x=0.00123");
    let mut t = String::new();
    push_fixed(&mut t, 123, 2);
    assert_eq!(t, "1.23");
    let mut u = String::new();
    push_fixed(&mut u, 0, 0);
    assert_eq!(u, "0");
}
