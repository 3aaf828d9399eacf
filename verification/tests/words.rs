use twatch::text::{
    chars_of, has_prefix, has_substring, has_suffix, is_space_char, matches_at, parse_i64, parse_u32,
    parse_u64, push_all, push_decimal, replace_chars, same_chars, split_chars, split_lines, string_of,
    trim_chars,
};

fn cs(s: &str) -> Vec<char> {
    s.chars().collect()
}

fn st(v: &Vec<char>) -> String {
    v.iter().collect()
}

fn parts(v: Vec<Vec<char>>) -> Vec<String> {
    v.iter().map(st).collect()
}

#[test]
fn strings_and_characters_convert_both_ways() {
    assert_eq!(chars_of("a\u{b0}C"), vec!['a', '\u{b0}', 'C']);
    assert_eq!(chars_of(""), Vec::<char>::new());
    assert_eq!(string_of(&vec!['4', '2', '\u{b0}']), "42\u{b0}");
    assert_eq!(string_of(&vec![]), "");
    assert_eq!(string_of(&chars_of("session_12.csv")), "session_12.csv");
}

#[test]
fn numerals_have_no_leading_zero() {
    for (n, text) in [(0u64, "0"), (7, "7"), (10, "10"), (4096, "4096"), (u64::MAX, "18446744073709551615")] {
        let mut out = cs("n=");
        push_decimal(&mut out, n);
        assert_eq!(st(&out), format!("n={}", text));
    }
}

#[test]
fn numerals_agree_with_the_standard_library() {
    let mut n: u64 = 1;
    for _ in 0..64 {
        for m in [n - 1, n, n + 1] {
            let mut out = Vec::new();
            push_decimal(&mut out, m);
            assert_eq!(st(&out), m.to_string());
            assert_eq!(parse_u64(&out), Some(m));
        }
        n = n.wrapping_mul(2).max(1);
    }
}

#[test]
fn unsigned_numerals_are_read() {
    assert_eq!(parse_u32(&cs("0")), Some(0));
    assert_eq!(parse_u32(&cs("007")), Some(7));
    assert_eq!(parse_u32(&cs("+15")), Some(15));
    assert_eq!(parse_u32(&cs("4294967295")), Some(u32::MAX));
    assert_eq!(parse_u32(&cs("4294967296")), None);
    assert_eq!(parse_u64(&cs("18446744073709551615")), Some(u64::MAX));
    assert_eq!(parse_u64(&cs("18446744073709551616")), None);
    assert_eq!(parse_u64(&cs("000000000000000000000000000001")), Some(1));
    for bad in ["", "+", "-", "-1", "++1", "1 ", " 1", "1_000", "0x10", "1.0", "\u{663}"] {
        assert_eq!(parse_u32(&cs(bad)), None, "{:?}", bad);
        assert_eq!(parse_u64(&cs(bad)), None, "{:?}", bad);
    }
}

#[test]
fn signed_numerals_are_read() {
    assert_eq!(parse_i64(&cs("0")), Some(0));
    assert_eq!(parse_i64(&cs("-0")), Some(0));
    assert_eq!(parse_i64(&cs("+42")), Some(42));
    assert_eq!(parse_i64(&cs("-42")), Some(-42));
    assert_eq!(parse_i64(&cs("9223372036854775807")), Some(i64::MAX));
    assert_eq!(parse_i64(&cs("9223372036854775808")), None);
    assert_eq!(parse_i64(&cs("-9223372036854775808")), Some(i64::MIN));
    assert_eq!(parse_i64(&cs("-9223372036854775809")), None);
    assert_eq!(parse_i64(&cs("-18446744073709551616")), None);
    for bad in ["", "+", "-", "--1", "+-1", "-+1", "1-", "- 1", "4e1", "40.5"] {
        assert_eq!(parse_i64(&cs(bad)), None, "{:?}", bad);
    }
}

#[test]
fn numerals_are_read_as_the_standard_library_reads_them() {
    for text in ["", "+", "-", "0", "-0", "+0", "12", "-12", "+12", "1a", "a1", " 1", "99999999999", "-99999999999"] {
        assert_eq!(parse_u32(&cs(text)), text.parse::<u32>().ok(), "{:?}", text);
        assert_eq!(parse_u64(&cs(text)), text.parse::<u64>().ok(), "{:?}", text);
        assert_eq!(parse_i64(&cs(text)), text.parse::<i64>().ok(), "{:?}", text);
    }
}

#[test]
fn white_space_is_what_unicode_says() {
    for code in 0..=0x10ffffu32 {
        if let Some(c) = char::from_u32(code) {
            assert_eq!(is_space_char(c), c.is_whitespace(), "{:x}", code);
        }
    }
}

#[test]
fn trimming_takes_white_space_from_both_ends() {
    assert_eq!(st(&trim_chars(&cs("  Core 0 \n"))), "Core 0");
    assert_eq!(st(&trim_chars(&cs("\t\r\n"))), "");
    assert_eq!(st(&trim_chars(&cs(""))), "");
    assert_eq!(st(&trim_chars(&cs("a"))), "a");
    assert_eq!(st(&trim_chars(&cs("\u{a0}\u{3000}x y\u{2003}\u{85}"))), "x y");
    for text in [" a b ", "ab", " ", "\n\na", "a\n\n", "\u{feff}a ", "\u{200b} a"] {
        assert_eq!(st(&trim_chars(&cs(text))), text.trim(), "{:?}", text);
    }
}

#[test]
fn text_is_split_at_every_separator() {
    assert_eq!(parts(split_chars(&cs("CPU,Core 0,45"), ',')), vec!["CPU", "Core 0", "45"]);
    assert_eq!(parts(split_chars(&cs(""), ',')), vec![""]);
    assert_eq!(parts(split_chars(&cs(","), ',')), vec!["", ""]);
    assert_eq!(parts(split_chars(&cs(",a,,b,"), ',')), vec!["", "a", "", "b", ""]);
    assert_eq!(parts(split_chars(&cs("no separator"), ',')), vec!["no separator"]);
    for text in ["a,b", ",", ",,", "a", "", "a,,", ",a"] {
        let expected: Vec<String> = text.split(',').map(|s| s.to_string()).collect();
        assert_eq!(parts(split_chars(&cs(text), ',')), expected, "{:?}", text);
    }
}

#[test]
fn text_is_split_into_lines() {
    assert_eq!(parts(split_lines(&cs("a\nb\n"))), vec!["a", "b"]);
    assert_eq!(parts(split_lines(&cs("a\nb"))), vec!["a", "b"]);
    assert_eq!(parts(split_lines(&cs("a\r\nb\r\n"))), vec!["a", "b"]);
    assert_eq!(parts(split_lines(&cs("\n\na\n\n"))), vec!["", "", "a", ""]);
    assert_eq!(parts(split_lines(&cs(""))), Vec::<String>::new());
    assert_eq!(parts(split_lines(&cs("\n"))), vec![""]);
    assert_eq!(parts(split_lines(&cs("a\rb\n"))), vec!["a\rb"]);
    assert_eq!(parts(split_lines(&cs("a\r\r\n"))), vec!["a\r"]);
    assert_eq!(parts(split_lines(&cs("a\r"))), vec!["a\r"]);
}

#[test]
fn lines_are_those_of_the_standard_library() {
    for text in ["", "\n", "a", "a\n", "a\nb", "a\r\nb\r\n", "\r\n", "\r", "a\r", "a\r\r\n", "\n\n", "a\n\rb", "\ra\n"] {
        let expected: Vec<String> = text.lines().map(|s| s.to_string()).collect();
        assert_eq!(parts(split_lines(&cs(text))), expected, "{:?}", text);
    }
}

#[test]
fn patterns_are_found_where_they_stand() {
    let name = cs("temp12_input");
    assert!(has_prefix(&name, &cs("temp")));
    assert!(has_prefix(&name, &cs("")));
    assert!(!has_prefix(&name, &cs("emp")));
    assert!(!has_prefix(&cs("tem"), &cs("temp")));
    assert!(has_suffix(&name, &cs("_input")));
    assert!(has_suffix(&name, &cs("")));
    assert!(!has_suffix(&name, &cs("_inpu")));
    assert!(!has_suffix(&cs("input"), &cs("_input")));
    assert!(has_substring(&name, &cs("12_")));
    assert!(has_substring(&name, &cs("")));
    assert!(has_substring(&name, &name));
    assert!(!has_substring(&name, &cs("13")));
    assert!(!has_substring(&cs(""), &cs("a")));
    assert!(has_substring(&cs(""), &cs("")));
    assert!(matches_at(&name, &cs("12"), 4));
    assert!(!matches_at(&name, &cs("12"), 5));
    assert!(!matches_at(&name, &cs("t"), 12));
    assert!(matches_at(&name, &cs(""), 12));
    assert!(!matches_at(&name, &cs(""), 13));
    assert!(!matches_at(&name, &cs("t"), usize::MAX));
    assert!(same_chars(&name, &cs("temp12_input")));
    assert!(!same_chars(&name, &cs("temp12_inpuT")));
    assert!(!same_chars(&name, &cs("temp12_inpu")));
    assert!(same_chars(&cs(""), &cs("")));
}

#[test]
fn every_occurrence_is_replaced() {
    let r = |s: &str, from: &str, to: &str| st(&replace_chars(&cs(s), &cs(from), &cs(to)));
    assert_eq!(r("temp1_input", "_input", "_label"), "temp1_label");
    assert_eq!(r("_input_input", "_input", "_label"), "_label_label");
    assert_eq!(r("aaaa", "aa", "b"), "bb");
    assert_eq!(r("aaa", "aa", "b"), "ba");
    assert_eq!(r("abc", "x", "y"), "abc");
    assert_eq!(r("abc", "abc", ""), "");
    assert_eq!(r("", "a", "b"), "");
    assert_eq!(r("abc", "", "x"), "abc");
    for (s, from, to) in [("banana", "an", "AN"), ("xxx", "x", "xx"), ("ab", "abc", "z"), ("a_input_b", "_input", "")] {
        assert_eq!(r(s, from, to), s.replace(from, to));
    }
}

#[test]
fn characters_are_appended_in_order() {
    let mut out = cs("ab");
    push_all(&mut out, &cs("cd"));
    push_all(&mut out, &cs(""));
    assert_eq!(st(&out), "abcd");
}
