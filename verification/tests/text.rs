use table_bot::text::{append_i64, append_u64};

#[test]
fn decimal_text_is_appended() {
    let mut text = String::from("n = ");
    append_i64(&mut text, -305);
    assert_eq!(text, "n = -305");
    append_u64(&mut text, 7);
    assert_eq!(text, "n = -3057");
}

#[test]
fn decimal_text_of_zero() {
    let mut text = String::new();
    append_i64(&mut text, 0);
    append_u64(&mut text, 0);
    assert_eq!(text, "00");
}

#[test]
fn decimal_text_of_extremes() {
    let mut text = String::new();
    append_i64(&mut text, i64::MIN);
    assert_eq!(text, "-9223372036854775808");
    let mut text = String::new();
    append_i64(&mut text, i64::MAX);
    assert_eq!(text, "9223372036854775807");
    let mut text = String::new();
    append_u64(&mut text, u64::MAX);
    assert_eq!(text, "18446744073709551615");
}

#[test]
fn decimal_text_reads_back() {
    for n in [-1000, -10, -9, -1, 0, 1, 9, 10, 99, 100, 12345] {
        let mut text = String::new();
        append_i64(&mut text, n);
        assert_eq!(text.parse::<i64>(), Ok(n));
        assert_eq!(text, n.to_string());
    }
}
