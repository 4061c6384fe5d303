use flowrt::textfmt::format_pattern;
use flowrt::textfmt::to_decimal;

#[test]
fn decimal_renders_exact_digits() {
    assert_eq!(to_decimal(0), "0".to_string());
    assert_eq!(to_decimal(7), "7".to_string());
    assert_eq!(to_decimal(10), "10".to_string());
    assert_eq!(to_decimal(12345), "12345".to_string());
    assert_eq!(to_decimal(u64::MAX), "18446744073709551615".to_string());
}

#[test]
fn periodic_sender_texts_come_out_in_sequence() {
    // The first five messages of a periodic sender with the documented
    // pattern.
    let pattern = "hello {seq}";
    let expect = ["hello 0", "hello 1", "hello 2", "hello 3", "hello 4"];
    for (k, want) in expect.iter().enumerate() {
        assert_eq!(format_pattern(pattern, k as u64), want.to_string());
    }
}

#[test]
fn pattern_without_marker_is_unchanged() {
    assert_eq!(format_pattern("plain text", 9), "plain text".to_string());
    assert_eq!(format_pattern("", 9), "".to_string());
}

#[test]
fn every_marker_occurrence_is_replaced() {
    assert_eq!(format_pattern("{seq}-{seq}", 3), "3-3".to_string());
    assert_eq!(format_pattern("a{seq}b", 42), "a42b".to_string());
}

#[test]
fn partial_markers_stay_literal() {
    assert_eq!(format_pattern("{se}", 1), "{se}".to_string());
    assert_eq!(format_pattern("{seq", 1), "{seq".to_string());
    assert_eq!(format_pattern("x{", 1), "x{".to_string());
}
