use vecembed::string_convert::{parse_i64, string_to_i64};

#[test]
fn numeric_strings_keep_their_value() {
    assert_eq!(string_to_i64("0"), 0);
    assert_eq!(string_to_i64("1"), 1);
    assert_eq!(string_to_i64("42"), 42);
    assert_eq!(string_to_i64("-7"), -7);
    assert_eq!(string_to_i64("+9"), 9);
    assert_eq!(string_to_i64("9223372036854775807"), i64::MAX);
    assert_eq!(string_to_i64("-9223372036854775808"), i64::MIN);
}

#[test]
fn round_trip_through_formatting() {
    let samples: [i64; 9] = [0, 1, -1, 42, -987654321, i64::MAX, i64::MIN, 1000000007, -13];
    for n in samples {
        let rendered = format!("{}", n);
        assert_eq!(string_to_i64(&rendered), n);
        assert_eq!(parse_i64(&rendered), Some(n));
    }
}

#[test]
fn non_numeric_strings_hash_deterministically_into_range() {
    let keys = ["", "alpha", "file-00017.txt", "9x", "12 3", "-", "+", "--5", "9223372036854775808"];
    for key in keys {
        let first = string_to_i64(key);
        let second = string_to_i64(key);
        assert_eq!(first, second, "the hash of {:?} is stable", key);
        assert!(first >= 0);
        assert!(first < i64::MAX);
    }
}

#[test]
fn parse_rejects_non_numerals() {
    assert_eq!(parse_i64(""), None);
    assert_eq!(parse_i64("-"), None);
    assert_eq!(parse_i64("+"), None);
    assert_eq!(parse_i64("12a"), None);
    assert_eq!(parse_i64(" 12"), None);
    assert_eq!(parse_i64("9223372036854775808"), None);
    assert_eq!(parse_i64("-9223372036854775809"), None);
}
