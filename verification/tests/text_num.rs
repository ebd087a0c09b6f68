use syslens_collect::num::{parse_hex_u16, parse_i64, parse_u32, parse_u64};
use syslens_collect::text::{split_lines, split_whitespace, to_chars, trim_start_matches_str, trim_str};

fn chars(s: &str) -> Vec<char> {
    s.chars().collect()
}

fn strings(v: Vec<Vec<char>>) -> Vec<String> {
    v.into_iter().map(|c| c.into_iter().collect()).collect()
}

#[test]
fn trim_removes_unicode_white_space() {
    assert_eq!(trim_str("  \t hello world \n"), "hello world");
    assert_eq!(trim_str("\u{a0}x\u{3000}"), "x");
    assert_eq!(trim_str("   "), "");
}

#[test]
fn split_whitespace_gives_words() {
    assert_eq!(strings(split_whitespace(&chars("  cpu  12 34\t5\n"))), vec!["cpu", "12", "34", "5"]);
    assert!(split_whitespace(&chars(" \t ")).is_empty());
}

#[test]
fn split_lines_follows_str_lines() {
    assert_eq!(strings(split_lines(&chars("a\r\nb\n\nc"))), vec!["a", "b", "", "c"]);
    assert_eq!(strings(split_lines(&chars("a\n"))), vec!["a"]);
    assert_eq!(strings(split_lines(&chars("a\r"))), vec!["a\r"]);
    assert!(split_lines(&chars("")).is_empty());
    assert_eq!(strings(split_lines(&chars("\n"))), vec![""]);
}

#[test]
fn trim_start_matches_removes_every_repetition() {
    let r: String = trim_start_matches_str(&chars("0x0x1f"), "0x").into_iter().collect();
    assert_eq!(r, "1f");
    let r: String = trim_start_matches_str(&chars("x0x"), "0x").into_iter().collect();
    assert_eq!(r, "x0x");
}

#[test]
fn decimal_parsing_follows_from_str() {
    assert_eq!(parse_u64(&chars("18446744073709551615")), Some(u64::MAX));
    assert_eq!(parse_u64(&chars("18446744073709551616")), None);
    assert_eq!(parse_u64(&chars("+7")), Some(7));
    assert_eq!(parse_u64(&chars("+")), None);
    assert_eq!(parse_u64(&chars("-0")), None);
    assert_eq!(parse_u64(&chars("")), None);
    assert_eq!(parse_u64(&chars("12a")), None);
    assert_eq!(parse_u32(&chars("4294967296")), None);
    assert_eq!(parse_i64(&chars("-9223372036854775808")), Some(i64::MIN));
    assert_eq!(parse_i64(&chars("9223372036854775808")), None);
    assert_eq!(parse_i64(&chars("-")), None);
    assert_eq!(parse_i64(&chars("-42")), Some(-42));
}

#[test]
fn hex_parsing_follows_from_str_radix() {
    assert_eq!(parse_hex_u16(&chars("8086")), Some(0x8086));
    assert_eq!(parse_hex_u16(&chars("ABcd")), Some(0xabcd));
    assert_eq!(parse_hex_u16(&chars("10000")), None);
    assert_eq!(parse_hex_u16(&chars("+f")), Some(15));
    assert_eq!(parse_hex_u16(&chars("0x10")), None);
}

#[test]
fn to_chars_keeps_every_character() {
    assert_eq!(to_chars("héllo"), vec!['h', 'é', 'l', 'l', 'o']);
}
