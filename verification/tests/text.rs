use shm_cached::text;
use shm_cached::text::NumberError;

#[test]
fn fields_between_separators() {
    assert_eq!(text::split("a,b,,c", ','), vec!["a", "b", "", "c"]);
    assert_eq!(text::split("", ','), vec![""]);
    assert_eq!(text::split(",", ','), vec!["", ""]);
    assert_eq!(text::split("/_images/ab/x.jpg", '/'), vec!["", "_images", "ab", "x.jpg"]);
    assert_eq!(text::split_either("x{y}z}", '{', '}'), vec!["x", "y", "z", ""]);
}

#[test]
fn fields_are_those_of_the_standard_library() {
    for s in ["", "a", "a.b", ".", "..", "x.y.", "\u{e4}.\u{1f600}.z"] {
        let expected: Vec<&str> = s.split('.').collect();
        assert_eq!(text::split(s, '.'), expected);
        assert_eq!(text::first_field(s, '.'), s.split('.').next().unwrap());
        assert_eq!(text::last_field(s, '.'), s.rsplit('.').next().unwrap());
    }
}

#[test]
fn fields_rejoin() {
    let s = "/_thumbs/0123//x/";
    assert_eq!(text::split(s, '/').join("/"), s);
    for field in text::split(s, '/') {
        assert!(!field.contains('/'));
    }
}

#[test]
fn searching() {
    assert!(text::contains("https://rule34.paheal.net/post", "paheal.net"));
    assert!(text::contains("paheal.net", "paheal.net"));
    assert!(text::contains("anything", ""));
    assert!(text::contains("", ""));
    assert!(!text::contains("", "a"));
    assert!(!text::contains("pahealnet", "paheal.net"));
    assert!(text::contains("aab", "ab"));
}

#[test]
fn comparing() {
    assert!(text::same("a\u{e4}", "a\u{e4}"));
    assert!(!text::same("a", "A"));
    assert!(!text::same("a", "ab"));
}

#[test]
fn first_characters() {
    assert_eq!(text::first_chars("0123456789", 7), "0123456");
    assert_eq!(text::first_chars("012", 7), "012");
    assert_eq!(text::first_chars("\u{e4}\u{f6}\u{fc}", 2), "\u{e4}\u{f6}");
}

#[test]
fn decimal_numbers() {
    assert_eq!(text::decimal_text(0), "0");
    assert_eq!(text::decimal_text(7), "7");
    assert_eq!(text::decimal_text(10), "10");
    assert_eq!(text::decimal_text(1203), "1203");
    assert_eq!(text::decimal_text(usize::MAX), usize::MAX.to_string());
}

#[test]
fn reading_numbers() {
    assert_eq!(text::parse_number("5"), Ok(5));
    assert_eq!(text::parse_number("+5"), Ok(5));
    assert_eq!(text::parse_number("007"), Ok(7));
    assert_eq!(text::parse_number("4294967295"), Ok(u32::MAX));
    assert_eq!(text::parse_number(""), Err(NumberError::Empty));
    assert_eq!(text::parse_number("+"), Err(NumberError::InvalidDigit));
    assert_eq!(text::parse_number("-"), Err(NumberError::InvalidDigit));
    assert_eq!(text::parse_number("-1"), Err(NumberError::InvalidDigit));
    assert_eq!(text::parse_number(" 1"), Err(NumberError::InvalidDigit));
    assert_eq!(text::parse_number("1 "), Err(NumberError::InvalidDigit));
    assert_eq!(text::parse_number("+-1"), Err(NumberError::InvalidDigit));
    assert_eq!(text::parse_number("4294967296"), Err(NumberError::TooLarge));
    assert_eq!(text::parse_number("99999999999x"), Err(NumberError::TooLarge));
    assert_eq!(text::parse_number("x99999999999"), Err(NumberError::InvalidDigit));
}

#[test]
fn numbers_are_those_of_the_standard_library() {
    let samples = [
        "", "0", "1", "+1", "-1", "+", "-", "++1", "12a", "a", "4294967295", "4294967296",
        "42949672950", "4294967295a", "42949672960a", "\u{661}", "1_000",
    ];
    for s in samples {
        let expected = s.parse::<u32>().map_err(|e| match e.kind() {
            std::num::IntErrorKind::Empty => NumberError::Empty,
            std::num::IntErrorKind::PosOverflow => NumberError::TooLarge,
            _ => NumberError::InvalidDigit,
        });
        assert_eq!(text::parse_number(s), expected, "{}", s);
    }
}

#[test]
fn decimal_reads_back() {
    for n in [0u32, 1, 9, 10, 99, 67_108_863, u32::MAX] {
        assert_eq!(text::parse_number(&text::decimal_text(n as usize)), Ok(n));
    }
}
