use culler_core::decimal::{decimal_signed, decimal_string, is_float_text, parse_i64_bytes, parse_unsigned_bytes};

#[test]
fn decimal_formatting_matches_display() {
    for n in [0u64, 7, 10, 99, 100, 12345, u64::MAX] {
        assert_eq!(decimal_string(n), n.to_string());
    }
    for n in [0i64, -1, 42, -9000, i64::MIN, i64::MAX] {
        assert_eq!(decimal_signed(n), n.to_string());
    }
}

#[test]
fn unsigned_parsing_matches_from_str() {
    for s in ["0", "12", "+12", "18446744073709551615", "18446744073709551616", "", "+", "-1", "1 ", "0x10", "007"] {
        assert_eq!(parse_unsigned_bytes(s.as_bytes(), u64::MAX), s.parse::<u64>().ok(), "{s:?}");
        assert_eq!(parse_unsigned_bytes(s.as_bytes(), u32::MAX as u64), s.parse::<u32>().ok().map(u64::from), "{s:?}");
    }
}

#[test]
fn signed_parsing_matches_i64_from_str() {
    for s in ["0", "-0", "+0", "42", "-42", "+42", "9223372036854775807", "9223372036854775808",
              "-9223372036854775808", "-9223372036854775809", "", "-", "+", "--1", "+-1", "1-", " 1"] {
        assert_eq!(parse_i64_bytes(s.as_bytes()), s.parse::<i64>().ok(), "{s:?}");
    }
}

#[test]
fn float_text_follows_the_f32_grammar() {
    for s in ["0", "0.92", "-1.0", "+.5", "5.", "1e3", "1E-3", "2.5e+10", "inf", "-Infinity", "NaN", "+nan",
              ".", "", "e5", "1e", "1e+", "1.2.3", "0x10", " 1", "1 ", "infinit", "--1", "1..2", ".e1", "1_000"] {
        assert_eq!(is_float_text(s.as_bytes()), s.parse::<f32>().is_ok(), "{s:?}");
    }
}
