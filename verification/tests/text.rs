use runde::text::{
    chars_of, decimal_of, find_char, lines_of, read_number, read_port, split_at_char, string_of,
    strip_char, strip_front_char, trimmed, white_space,
};

fn text(cs: &[char]) -> String {
    cs.iter().collect()
}

fn texts(all: &[Vec<char>]) -> Vec<String> {
    all.iter().map(|cs| text(cs)).collect()
}

#[test]
fn white_space_is_that_of_the_standard_library() {
    for n in 0..=0x10ffffu32 {
        if let Some(c) = char::from_u32(n) {
            assert_eq!(white_space(c), c.is_whitespace(), "{:x}", n);
        }
    }
}

#[test]
fn characters_and_strings_go_back_and_forth() {
    for s in ["", "a", "Запуск…", "a\nb"] {
        assert_eq!(string_of(&chars_of(s)), s);
    }
}

#[test]
fn trimming_is_that_of_the_standard_library() {
    for s in ["", "   ", "a", " a b ", "\u{3000}x\u{85}", "\t\r\n", "  endpointabc\n"] {
        assert_eq!(text(trimmed(&chars_of(s))), s.trim(), "{:?}", s);
    }
}

#[test]
fn stripping_is_that_of_the_standard_library() {
    for s in ["", "v", "vv1.2v", "1.2", "\"a\"", "\"", "'\"x\"'", "V1"] {
        assert_eq!(text(strip_front_char(&chars_of(s), 'v')), s.trim_start_matches('v'));
        assert_eq!(text(strip_char(&chars_of(s), '"')), s.trim_matches('"'));
    }
}

#[test]
fn finding_stops_at_the_first() {
    assert_eq!(find_char(&chars_of("a=b=c"), '='), 1);
    assert_eq!(find_char(&chars_of("abc"), '='), 3);
    assert_eq!(find_char(&chars_of(""), '='), 0);
}

#[test]
fn splitting_is_that_of_the_standard_library() {
    for s in ["", ".", "1.2.3", "..", "a.", ".a"] {
        let expected: Vec<&str> = s.split('.').collect();
        assert_eq!(texts(&split_at_char(&chars_of(s), '.')), expected, "{:?}", s);
    }
}

#[test]
fn lines_are_those_of_the_standard_library() {
    for s in ["", "\n", "a", "a\n", "a\nb", "a\r\nb\r\n", "a\r", "\r\n", "a\n\nb", "a\r\r\nb", "\r"] {
        let expected: Vec<&str> = s.lines().collect();
        assert_eq!(texts(&lines_of(&chars_of(s))), expected, "{:?}", s);
    }
}

#[test]
fn ports_are_those_of_the_standard_library() {
    for s in [
        "", "+", "-", "0", "25565", "65535", "65536", "+25565", "-1", "-0", "++1", "00000080", " 80",
        "80 ", "8_0", "0x50", "٨", "99999999999999999999999999",
    ] {
        assert_eq!(read_port(s), s.parse::<u16>().ok(), "{:?}", s);
    }
    assert_eq!(read_port("25565"), Some(25565));
}

#[test]
fn numbers_are_those_of_the_standard_library() {
    for s in [
        "0", "7", "18446744073709551615", "18446744073709551616", "18446744073709551625",
        "0018446744073709551615", "184467440737095516150", "1a", "",
    ] {
        assert_eq!(read_number(&chars_of(s), u64::MAX), s.parse::<u64>().ok(), "{:?}", s);
    }
    assert_eq!(read_number(&chars_of("10"), 9), None);
    assert_eq!(read_number(&chars_of("9"), 9), Some(9));
}

#[test]
fn decimals_read_back() {
    for n in [0, 9, 10, 99, 100, 25565, 65535, u64::MAX] {
        assert_eq!(decimal_of(n), n.to_string());
        assert_eq!(read_number(&chars_of(&decimal_of(n)), u64::MAX), Some(n));
    }
}

#[test]
fn padding_does_not_matter() {
    assert_eq!(text(trimmed(&chars_of(" \t a b \n"))), "a b");
    assert_eq!(text(trimmed(trimmed(&chars_of(" \t a b \n")))), "a b");
}
