use netlabs::text::{decimal_text, digit_text, right_aligned};

#[test]
fn decimal_numbers() {
    assert_eq!(decimal_text(0), "0");
    assert_eq!(decimal_text(7), "7");
    assert_eq!(decimal_text(10), "10");
    assert_eq!(decimal_text(1234567890), "1234567890");
    assert_eq!(decimal_text(u128::MAX), u128::MAX.to_string());
    assert_eq!(digit_text(9), "9");
}

#[test]
fn right_alignment() {
    assert_eq!(right_aligned("5 ms", 9), "     5 ms");
    assert_eq!(right_aligned("123456789 ms", 9), "123456789 ms");
    assert_eq!(right_aligned("", 3), "   ");
}
