use tool_calling::number::{
    float_literal, integer_to_text, json_number, parse_i128, parse_i64, wide_integer_to_text,
};

#[test]
fn integers_parse_with_optional_sign() {
    assert_eq!(parse_i64("0"), Some(0));
    assert_eq!(parse_i64("42"), Some(42));
    assert_eq!(parse_i64("+5"), Some(5));
    assert_eq!(parse_i64("-17"), Some(-17));
    assert_eq!(parse_i64("-0"), Some(0));
    assert_eq!(parse_i64("007"), Some(7));
}

#[test]
fn integers_reject_what_is_no_digit_string() {
    for raw in ["", "+", "-", "foo", "12a", "1 ", " 1", "1.0", "1_000", "--1", "+-1", "0x10", "١"] {
        assert_eq!(parse_i64(raw), None, "{:?}", raw);
    }
}

#[test]
fn integers_stop_at_the_range_of_i64() {
    assert_eq!(parse_i64("9223372036854775807"), Some(i64::MAX));
    assert_eq!(parse_i64("9223372036854775808"), None);
    assert_eq!(parse_i64("-9223372036854775808"), Some(i64::MIN));
    assert_eq!(parse_i64("-9223372036854775809"), None);
    assert_eq!(parse_i64("99999999999999999999999999"), None);
    assert_eq!(parse_i64("000000000000000000000000001"), Some(1));
    assert_eq!(parse_i64("18446744073709551616"), None);
    assert_eq!(parse_i64("18446744073709551615"), None);
}

#[test]
fn integers_agree_with_the_standard_parser() {
    let samples = [
        "0", "1", "-1", "+1", "", "+", "-", "12", "1e3", "0012", "-0012", "9223372036854775807",
        "9223372036854775808", "-9223372036854775808", "-9223372036854775809", "abc", "1a", "a1",
        "+ 1", "٣", "12345678901234567890", "1.", ".1",
    ];
    for raw in samples {
        assert_eq!(parse_i64(raw), raw.parse::<i64>().ok(), "{:?}", raw);
    }
}

#[test]
fn floats_follow_the_literal_grammar() {
    for raw in [
        "3.14", "1", "1.", ".5", "+1", "-1", "1e5", "1E5", "1e+5", "1.5e-3", ".5e1", "5.e1", "inf",
        "-inf", "+infinity", "Infinity", "INF", "nan", "NaN", "-nan", "0", "00.00",
    ] {
        assert!(float_literal(raw), "{:?}", raw);
    }
    for raw in [
        "", ".", "+", "-", "e5", ".e5", "1e", "1e+", "1.5.2", "infinit", "infinityy", "na", "nann",
        " 1", "1 ", "1_0", "0x10", "1f", "--1", "+-1", "i", "1e5.0",
    ] {
        assert!(!float_literal(raw), "{:?}", raw);
    }
}

#[test]
fn floats_agree_with_the_standard_parser() {
    let samples = [
        "3.14", "1", "1.", ".5", ".", "", "+", "-", "+.5", "-5.", "1e5", "1E-5", "1e", "e1", "inf",
        "iNf", "infinity", "infinit", "nan", "NAN", "-NaN", "+inf", "1.2.3", "1,5", " 1", "1 ",
        "0e0", ".e1", "5.e3", "1e+", "1e-", "1e+3", "١.٥",
    ];
    for raw in samples {
        assert_eq!(float_literal(raw), raw.parse::<f64>().is_ok(), "{:?}", raw);
    }
}

#[test]
fn json_numbers_follow_the_json_grammar() {
    for raw in ["0", "-0", "7", "10", "-12", "1.5", "0.25", "1e5", "1E5", "1e+5", "1.5e-3", "0e0"] {
        assert!(json_number(raw), "{:?}", raw);
    }
    for raw in [
        "", "-", "+1", "01", "-01", "1.", ".5", "1e", "1e+", "1.5.2", "e5", "inf", "NaN", " 1",
        "1 ", "0x10", "--1", "1.e5",
    ] {
        assert!(!json_number(raw), "{:?}", raw);
    }
}

#[test]
fn json_numbers_agree_with_serde_json() {
    let samples = [
        "0", "-0", "1", "01", "1.0", "1.", ".1", "-", "", "1e3", "1E3", "1e", "1e+3", "-1.5e-3",
        "+1", "00", "0.0", "0.", "12345678901234567890", "1.5.5", "nan", "1x", "2e", "-e1",
    ];
    for raw in samples {
        let theirs = serde_json::from_str::<serde_json::Value>(raw).map_or(false, |v| v.is_number());
        assert_eq!(json_number(raw), theirs, "{:?}", raw);
    }
}

#[test]
fn json_numbers_know_no_range() {
    assert!(json_number("2e781"));
    assert!(json_number("-123456789012345678901234567890"));
    assert!(json_number("0.000000000000000000000000000000000000001e-999"));
}

#[test]
fn integers_render_in_decimal() {
    assert_eq!(integer_to_text(0), "0");
    assert_eq!(integer_to_text(7), "7");
    assert_eq!(integer_to_text(-1), "-1");
    assert_eq!(integer_to_text(1234567890), "1234567890");
    assert_eq!(integer_to_text(i64::MAX), "9223372036854775807");
    assert_eq!(integer_to_text(i64::MIN), "-9223372036854775808");
}

#[test]
fn integer_rendering_and_parsing_are_inverse() {
    for n in [0, 1, -1, 9, 10, 11, 99, 100, -100, 123456, i64::MAX, i64::MIN, i64::MIN + 1] {
        assert_eq!(parse_i64(&integer_to_text(n)), Some(n));
        assert_eq!(integer_to_text(n), n.to_string());
    }
}

// A small deterministic generator of texts over the characters that matter.
fn texts(count: usize, seed: u64) -> Vec<String> {
    let alphabet: Vec<char> = "0123456789+-.eEinfINFatyTYAN_x".chars().collect();
    let mut state = seed;
    let mut next = move |bound: u64| {
        state = state.wrapping_mul(6364136223846793005).wrapping_add(1442695040888963407);
        (state >> 33) % bound
    };
    (0..count)
        .map(|_| (0..next(9)).map(|_| alphabet[next(alphabet.len() as u64) as usize]).collect())
        .collect()
}

#[test]
fn many_texts_are_read_as_the_standard_parsers_read_them() {
    for raw in texts(50_000, 7) {
        assert_eq!(parse_i64(&raw), raw.parse::<i64>().ok(), "{:?}", raw);
        assert_eq!(float_literal(&raw), raw.parse::<f64>().is_ok(), "{:?}", raw);
        // The grammar knows no range; serde_json gives up on a literal beyond
        // its own before it has seen all of the text.
        match serde_json::from_str::<serde_json::Value>(&raw) {
            Ok(value) => assert_eq!(json_number(&raw), value.is_number(), "{:?}", raw),
            Err(e) if e.to_string().contains("out of range") => {}
            Err(_) => assert!(!json_number(&raw), "{:?}", raw),
        }
    }
}

#[test]
fn many_digit_strings_are_read_as_the_standard_parser_reads_them() {
    let mut state: u64 = 99;
    let mut next = move |bound: u64| {
        state = state.wrapping_mul(6364136223846793005).wrapping_add(1442695040888963407);
        (state >> 33) % bound
    };
    for _ in 0..20_000 {
        let sign = ["", "-", "+"][next(3) as usize];
        let digits: String =
            (0..next(22)).map(|_| char::from(b'0' + next(10) as u8)).collect();
        let raw = format!("{}{}", sign, digits);
        assert_eq!(parse_i64(&raw), raw.parse::<i64>().ok(), "{:?}", raw);
    }
}

#[test]
fn wide_integers_are_read_and_rendered() {
    assert_eq!(parse_i128("170141183460469231731687303715884105727"), Some(i128::MAX));
    assert_eq!(parse_i128("170141183460469231731687303715884105728"), None);
    assert_eq!(parse_i128("-170141183460469231731687303715884105728"), Some(i128::MIN));
    assert_eq!(parse_i128("-170141183460469231731687303715884105729"), None);
    assert_eq!(parse_i128("18446744073709551616"), Some(1 << 64));
    assert_eq!(parse_i128(""), None);
    assert_eq!(parse_i128("-"), None);
    assert_eq!(wide_integer_to_text(i128::MAX), "170141183460469231731687303715884105727");
    assert_eq!(wide_integer_to_text(i128::MIN), "-170141183460469231731687303715884105728");
    for n in [0, 1, -1, i128::MAX, i128::MIN, 1 << 100, -(1 << 100), u64::MAX as i128] {
        assert_eq!(parse_i128(&wide_integer_to_text(n)), Some(n));
        assert_eq!(wide_integer_to_text(n), n.to_string());
    }
    for raw in texts(20_000, 11) {
        assert_eq!(parse_i128(&raw), raw.parse::<i128>().ok(), "{:?}", raw);
    }
}
