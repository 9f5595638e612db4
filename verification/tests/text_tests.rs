use kv::protocol::number::{read_i64, read_u64, write_decimal, write_integer};
use kv::text::{is_space_char, same_text, split_words, to_upper};

fn decimal(n: u128) -> String {
    let mut out = String::new();
    write_decimal(&mut out, n);
    out
}

fn integer(i: i128) -> String {
    let mut out = String::new();
    write_integer(&mut out, i);
    out
}

#[test]
fn split_words_of_nothing() {
    assert!(split_words("").is_empty());
    assert!(split_words(" \t\n ").is_empty());
}

#[test]
fn split_words_drops_all_separators() {
    assert_eq!(split_words("a"), vec!["a"]);
    assert_eq!(split_words("  a  "), vec!["a"]);
    assert_eq!(split_words("a b"), vec!["a", "b"]);
    assert_eq!(split_words("\ta  bc\r\n d\u{0b}e\u{0c}f "), vec!["a", "bc", "d", "e", "f"]);
}

#[test]
fn split_words_agrees_with_std() {
    for line in [
        "",
        "SET key some value EX 10",
        "  leading and trailing  ",
        "tabs\tand\nnewlines\r\n",
        "nbsp\u{a0}ogham\u{1680}en\u{2000}quad\u{200a}hair",
        "line\u{2028}para\u{2029}narrow\u{202f}math\u{205f}ideo\u{3000}nel\u{85}end",
        "not\u{200b}separators\u{feff}here\u{180e}either",
        "ünïcödé wörds ✓ 鍵 値",
    ] {
        let expected: Vec<&str> = line.split_whitespace().collect();
        assert_eq!(split_words(line), expected, "{:?}", line);
    }
}

#[test]
fn is_space_char_agrees_with_std_on_every_char() {
    for code in 0..=0x10FFFFu32 {
        if let Some(c) = char::from_u32(code) {
            assert_eq!(is_space_char(c), c.is_whitespace(), "U+{:04X}", code);
        }
    }
}

#[test]
fn same_text_compares_whole_strings() {
    assert!(same_text("", ""));
    assert!(same_text("GET", "GET"));
    assert!(!same_text("GET", "GETS"));
    assert!(!same_text("GETS", "GET"));
    assert!(!same_text("GET", "get"));
    assert!(!same_text("", "x"));
    assert!(same_text("鍵x", "鍵x"));
    assert!(!same_text("鍵x", "鍵y"));
}

#[test]
fn read_u64_accepts_digits_and_plus() {
    assert_eq!(read_u64("0"), Some(0));
    assert_eq!(read_u64("7"), Some(7));
    assert_eq!(read_u64("+7"), Some(7));
    assert_eq!(read_u64("000123"), Some(123));
    assert_eq!(read_u64("18446744073709551615"), Some(u64::MAX));
    assert_eq!(read_u64("+18446744073709551615"), Some(u64::MAX));
    assert_eq!(read_u64("00000000000000000000000018446744073709551615"), Some(u64::MAX));
}

#[test]
fn read_u64_rejects_everything_else() {
    for text in [
        "", "+", "-", "-1", "-0", "++1", "1+", "1 ", " 1", "1.0", "1e2", "0x1f", "1_000", "a",
        "12a", "١٢", "１２", "18446744073709551616", "99999999999999999999999999",
    ] {
        assert_eq!(read_u64(text), None, "{:?}", text);
    }
}

#[test]
fn read_u64_agrees_with_std() {
    for text in ["0", "+0", "-0", "42", "+42", "-42", "", "+", "x", "4 2", "18446744073709551615",
        "18446744073709551616", "184467440737095516150", "0000", "+-1"] {
        assert_eq!(read_u64(text), text.parse::<u64>().ok(), "{:?}", text);
    }
}

#[test]
fn read_i64_accepts_both_signs() {
    assert_eq!(read_i64("0"), Some(0));
    assert_eq!(read_i64("-0"), Some(0));
    assert_eq!(read_i64("+0"), Some(0));
    assert_eq!(read_i64("-17"), Some(-17));
    assert_eq!(read_i64("+17"), Some(17));
    assert_eq!(read_i64("9223372036854775807"), Some(i64::MAX));
    assert_eq!(read_i64("-9223372036854775808"), Some(i64::MIN));
    assert_eq!(read_i64("-0009223372036854775808"), Some(i64::MIN));
}

#[test]
fn read_i64_rejects_everything_else() {
    for text in [
        "", "+", "-", "--1", "+-1", "-+1", "1-", "- 1", "1.0", "abc", "9223372036854775808",
        "-9223372036854775809", "18446744073709551615", "18446744073709551616",
        "-18446744073709551616",
    ] {
        assert_eq!(read_i64(text), None, "{:?}", text);
    }
}

#[test]
fn read_i64_agrees_with_std() {
    for text in ["0", "-0", "+0", "5", "-5", "+5", "", "-", "+", "9223372036854775807",
        "9223372036854775808", "-9223372036854775808", "-9223372036854775809", "1x", "x1"] {
        assert_eq!(read_i64(text), text.parse::<i64>().ok(), "{:?}", text);
    }
}

#[test]
fn write_decimal_exact_values() {
    assert_eq!(decimal(0), "0");
    assert_eq!(decimal(9), "9");
    assert_eq!(decimal(10), "10");
    assert_eq!(decimal(1_000_000), "1000000");
    assert_eq!(decimal(u64::MAX as u128), "18446744073709551615");
    assert_eq!(decimal(u128::MAX), "340282366920938463463374607431768211455");
}

#[test]
fn write_decimal_appends() {
    let mut out = String::from("n=");
    write_decimal(&mut out, 120);
    assert_eq!(out, "n=120");
}

#[test]
fn write_integer_exact_values() {
    assert_eq!(integer(0), "0");
    assert_eq!(integer(-1), "-1");
    assert_eq!(integer(-2), "-2");
    assert_eq!(integer(100), "100");
    assert_eq!(integer(i64::MIN as i128), "-9223372036854775808");
    assert_eq!(integer(i64::MAX as i128 + 1), "9223372036854775808");
    assert_eq!(integer(i128::MAX), "170141183460469231731687303715884105727");
    assert_eq!(integer(i128::MIN), "-170141183460469231731687303715884105728");
}

#[test]
fn written_integers_read_back() {
    for n in [i64::MIN, -1_000_000, -10, -1, 0, 1, 9, 10, 11, 99, 100, 12345, i64::MAX] {
        assert_eq!(read_i64(&integer(n as i128)), Some(n));
    }
    for n in [0u64, 1, 10, 999, u64::MAX] {
        assert_eq!(read_u64(&decimal(n as u128)), Some(n));
    }
}

#[test]
fn to_upper_folds_ascii_letters() {
    assert_eq!(to_upper(""), "");
    assert_eq!(to_upper("get"), "GET");
    assert_eq!(to_upper("GeT"), "GET");
    assert_eq!(to_upper("expire"), "EXPIRE");
    assert_eq!(to_upper("a-z_0{9}`~"), "A-Z_0{9}`~");
}

#[test]
fn to_upper_agrees_with_std_on_every_ascii_char() {
    for code in 0..=0x7Fu8 {
        let text = (code as char).to_string();
        assert_eq!(to_upper(&text), text.to_uppercase(), "U+{:04X}", code);
    }
    let all: String = (0..=0x7Fu8).map(|code| code as char).collect();
    assert_eq!(to_upper(&all), all.to_uppercase());
}

#[test]
fn to_upper_follows_unicode_beyond_ascii() {
    for text in ["stra\u{df}e", "p\u{131}ng", "\u{17f}et", "\u{fb01}x", "\u{e9}t\u{e9}", "\u{3c3}\u{3c2}", "ab\u{212a}"] {
        assert_eq!(to_upper(text), text.to_uppercase(), "{:?}", text);
    }
    assert_eq!(to_upper("stra\u{df}e"), "STRASSE");
}
