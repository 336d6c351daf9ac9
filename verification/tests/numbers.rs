use rmw_zenoh_mcap_writer::numparse::{format_u32, parse_i32, parse_i64, parse_u32, IntErrorKind};

fn chars(s: &str) -> Vec<char> {
    s.chars().collect()
}

fn std_kind(e: &std::num::ParseIntError) -> IntErrorKind {
    match e.kind() {
        std::num::IntErrorKind::Empty => IntErrorKind::Empty,
        std::num::IntErrorKind::InvalidDigit => IntErrorKind::InvalidDigit,
        std::num::IntErrorKind::PosOverflow => IntErrorKind::PosOverflow,
        std::num::IntErrorKind::NegOverflow => IntErrorKind::NegOverflow,
        _ => unreachable!(),
    }
}

const SAMPLES: &[&str] = &[
    "", "0", "7", "+7", "-7", "+", "-", "007", "4294967295", "4294967296", "2147483647", "2147483648",
    "-2147483648", "-2147483649", "9223372036854775807", "9223372036854775808", "-9223372036854775808",
    "-9223372036854775809", "12a", "a12", " 1", "1 ", "99999999999999999999x", "x99999999999999999999",
    "+-1", "--1", "٣", "1_000",
];

#[test]
fn u32_parsing_matches_std() {
    for s in SAMPLES {
        let mine = parse_u32(&chars(s));
        let theirs = s.parse::<u32>().map_err(|e| std_kind(&e));
        assert_eq!(mine, theirs, "input {s:?}");
    }
}

#[test]
fn i32_parsing_matches_std() {
    for s in SAMPLES {
        let mine = parse_i32(&chars(s));
        let theirs = s.parse::<i32>().map_err(|e| std_kind(&e));
        assert_eq!(mine, theirs, "input {s:?}");
    }
}

#[test]
fn i64_parsing_matches_std() {
    for s in SAMPLES {
        let mine = parse_i64(&chars(s));
        let theirs = s.parse::<i64>().map_err(|e| std_kind(&e));
        assert_eq!(mine, theirs, "input {s:?}");
    }
}

#[test]
fn integer_error_kinds() {
    assert_eq!(parse_u32(&chars("")), Err(IntErrorKind::Empty));
    assert_eq!(parse_u32(&chars("-1")), Err(IntErrorKind::InvalidDigit));
    assert_eq!(parse_u32(&chars("4294967296")), Err(IntErrorKind::PosOverflow));
    assert_eq!(parse_i64(&chars("-9223372036854775809")), Err(IntErrorKind::NegOverflow));
    assert_eq!(parse_i64(&chars("-9223372036854775808")), Ok(i64::MIN));
}

#[test]
fn decimal_formatting_round_trips() {
    for n in [0u32, 1, 9, 10, 99, 100, 12345, u32::MAX] {
        let s = format_u32(n);
        assert_eq!(s, n.to_string());
        assert_eq!(parse_u32(&chars(&s)), Ok(n));
    }
}
