use minigrep::{decimal_string, pad, render_match, Line};

#[test]
fn renders_small_row_and_column_zero_padded() {
    let m = Line {
        row: 3,
        col: 7,
        text: "hello",
    };
    assert_eq!("03-07 | hello", render_match(&m));
}

#[test]
fn renders_wide_row_unpadded_and_untruncated() {
    let m = Line {
        row: 123,
        col: 7,
        text: "hello",
    };
    assert_eq!("123-07 | hello", render_match(&m));
}

#[test]
fn renders_two_digit_numbers_as_they_are() {
    let m = Line {
        row: 10,
        col: 42,
        text: "x",
    };
    assert_eq!("10-42 | x", render_match(&m));
}

#[test]
fn pad_adds_leading_zeros_up_to_width() {
    assert_eq!("05", pad("5".to_string(), 2));
    assert_eq!("00", pad("".to_string(), 2));
    assert_eq!("0007", pad("7".to_string(), 4));
}

#[test]
fn pad_never_truncates() {
    assert_eq!("123", pad("123".to_string(), 2));
    assert_eq!("42", pad("42".to_string(), 2));
    assert_eq!("1000", pad("1000".to_string(), 0));
}

#[test]
fn decimal_string_renders_exact_numerals() {
    assert_eq!("0", decimal_string(0));
    assert_eq!("9", decimal_string(9));
    assert_eq!("10", decimal_string(10));
    assert_eq!("42", decimal_string(42));
    assert_eq!("1234567890", decimal_string(1234567890));
    assert_eq!("18446744073709551615", decimal_string(u64::MAX));
}
