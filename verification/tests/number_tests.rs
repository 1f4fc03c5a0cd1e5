use delta::number::{add_wrapping, char_is_digit, number_text, push_decimal_digits};

#[test]
fn decimal_digits_are_digits() {
    for c in "0123456789".chars() {
        assert!(char_is_digit(c));
    }
    for c in "/:aA +-.\u{0661}\u{ff11}".chars() {
        assert!(!char_is_digit(c));
    }
}

#[test]
fn number_text_of_small_numbers() {
    assert_eq!(number_text(0), "0");
    assert_eq!(number_text(5), "5");
    assert_eq!(number_text(9), "9");
    assert_eq!(number_text(10), "10");
    assert_eq!(number_text(-1), "-1");
    assert_eq!(number_text(-10), "-10");
    assert_eq!(number_text(1002003), "1002003");
}

#[test]
fn number_text_at_the_limits() {
    assert_eq!(number_text(i64::MAX), "9223372036854775807");
    assert_eq!(number_text(i64::MIN), "-9223372036854775808");
    assert_eq!(number_text(i64::MIN + 1), "-9223372036854775807");
}

#[test]
fn number_text_matches_the_standard_form() {
    let mut n: i64 = 1;
    for _ in 0..62 {
        assert_eq!(number_text(n), n.to_string());
        assert_eq!(number_text(-n), (-n).to_string());
        assert_eq!(number_text(n - 1), (n - 1).to_string());
        n = n * 2 + (n % 3);
        if n > i64::MAX / 4 {
            n = n / 1000 + 1;
        }
    }
}

#[test]
fn digits_are_appended_to_what_is_there() {
    let mut text = String::from("n=");
    push_decimal_digits(&mut text, 0);
    assert_eq!(text, "n=0");
    push_decimal_digits(&mut text, 18446744073709551615);
    assert_eq!(text, "n=018446744073709551615");
    push_decimal_digits(&mut text, 407);
    assert_eq!(text, "n=018446744073709551615407");
}

#[test]
fn add_wrapping_adds() {
    assert_eq!(add_wrapping(2, 3), 5);
    assert_eq!(add_wrapping(-5, 3), -2);
    assert_eq!(add_wrapping(i64::MAX, 0), i64::MAX);
}

#[test]
fn add_wrapping_wraps() {
    assert_eq!(add_wrapping(i64::MAX, 1), i64::MIN);
    assert_eq!(add_wrapping(i64::MIN, -1), i64::MAX);
    assert_eq!(add_wrapping(i64::MAX, i64::MAX), -2);
    assert_eq!(add_wrapping(i64::MIN, i64::MIN), 0);
}
