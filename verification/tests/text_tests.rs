use chat::text::{decimal_string, is_white_space_char, parse_i32, signed_decimal_string};
use chat::words::split_command_line;

#[test]
fn decimal_of_small_and_large() {
    assert_eq!(decimal_string(0), "0");
    assert_eq!(decimal_string(7), "7");
    assert_eq!(decimal_string(10), "10");
    assert_eq!(decimal_string(2098), "2098");
    assert_eq!(decimal_string(u64::MAX), u64::MAX.to_string());
}

#[test]
fn signed_decimal_of_negative() {
    assert_eq!(signed_decimal_string(-5), "-5");
    assert_eq!(signed_decimal_string(0), "0");
    assert_eq!(signed_decimal_string(i64::MIN), i64::MIN.to_string());
    assert_eq!(signed_decimal_string(i64::MAX), i64::MAX.to_string());
}

#[test]
fn parse_i32_agrees_with_std() {
    let inputs = [
        "", "+", "-", "0", "12", "+12", "-12", "007", "-0", "2147483647", "2147483648",
        "-2147483648", "-2147483649", "99999999999999999999", " 1", "1 ", "1a", "a1", "--1",
        "+-1", "\u{663}", "12\u{663}", "1_000",
    ];
    for s in inputs {
        assert_eq!(parse_i32(s), s.parse::<i32>().ok(), "input {:?}", s);
    }
}

#[test]
fn parse_undoes_decimal() {
    for n in [0i32, 1, -1, 42, -42, 2098, i32::MAX, i32::MIN] {
        let s = signed_decimal_string(n as i64);
        assert_eq!(parse_i32(&s), Some(n));
    }
}

#[test]
fn white_space_agrees_with_std_on_every_char() {
    for u in 0u32..=0x10FFFF {
        if let Some(c) = char::from_u32(u) {
            assert_eq!(is_white_space_char(c), c.is_whitespace(), "char {:#x}", u);
        }
    }
}

#[test]
fn split_plain_words() {
    assert_eq!(split_command_line("sign_in alice secret"), vec!["sign_in", "alice", "secret"]);
}

#[test]
fn split_skips_runs_of_white_space() {
    assert_eq!(split_command_line("  a \t  b\n "), vec!["a", "b"]);
    assert_eq!(split_command_line("a\u{3000}b"), vec!["a", "b"]);
}

#[test]
fn split_empty_line() {
    assert!(split_command_line("").is_empty());
    assert!(split_command_line("   ").is_empty());
    assert!(split_command_line("\"\"").is_empty());
}

#[test]
fn split_keeps_quoted_white_space() {
    assert_eq!(
        split_command_line("send \"hello there world\" bob"),
        vec!["send", "hello there world", "bob"]
    );
}

#[test]
fn split_drops_quotes_inside_words() {
    assert_eq!(split_command_line("a\"b c\"d e"), vec!["ab cd", "e"]);
    assert_eq!(split_command_line("\"unclosed quote here"), vec!["unclosed quote here"]);
}

#[test]
fn split_undoes_join() {
    let words = vec!["reply", "ok", "17"];
    assert_eq!(split_command_line(&words.join(" ")), words);
}

#[test]
fn quoted_text_is_one_word() {
    assert_eq!(split_command_line("\" a  b \""), vec![" a  b "]);
}

#[test]
fn words_hold_no_quote_and_are_not_empty() {
    for line in ["\"a\" \"\" b\"\"c", "x \" \" y", "\"\"\"q\""] {
        for w in split_command_line(line) {
            assert!(!w.is_empty());
            assert!(!w.contains('"'));
        }
    }
}
