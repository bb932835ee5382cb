use pi_kiosk::text::{
    chars_of, contains_exec, decimal_exec, find_exec, lines_exec, parse_i32, parse_u32, parse_u64,
    parse_u8, rfind_char_exec, split_exec, string_from_chars, trim_char_exec, trim_exec, words_exec,
};

fn c(s: &str) -> Vec<char> {
    s.chars().collect()
}

fn strs(v: Vec<Vec<char>>) -> Vec<String> {
    v.into_iter().map(|x| x.into_iter().collect()).collect()
}

#[test]
fn split_matches_str_split() {
    for (s, d) in [("a,b,,c", ','), ("", ','), (",", ','), ("no-sep", ','), ("/a/b/", '/')] {
        let expected: Vec<String> = s.split(d).map(|p| p.to_string()).collect();
        assert_eq!(strs(split_exec(&c(s), d)), expected);
    }
}

#[test]
fn split_then_join_gives_back_the_text() {
    for s in ["a,b,,c", "", ",,", "x"] {
        let pieces = strs(split_exec(&c(s), ','));
        assert_eq!(pieces.join(","), s);
    }
}

#[test]
fn lines_match_str_lines() {
    for s in ["a\nb\r\nc", "a\n", "", "\n\n", "x\r", "one"] {
        let expected: Vec<String> = s.lines().map(|p| p.to_string()).collect();
        assert_eq!(strs(lines_exec(&c(s))), expected, "{:?}", s);
    }
}

#[test]
fn words_match_split_whitespace() {
    for s in ["  a  b\tc\n", "", "   ", "x"] {
        let expected: Vec<String> = s.split_whitespace().map(|p| p.to_string()).collect();
        assert_eq!(strs(words_exec(&c(s))), expected);
    }
}

#[test]
fn trimming() {
    assert_eq!(string_from_chars(&trim_exec(&c("  a b \r\n"))), "a b");
    assert_eq!(string_from_chars(&trim_char_exec(&c("\"quoted\""), '"')), "quoted");
    assert_eq!(string_from_chars(&trim_char_exec(&c("\"\""), '"')), "");
}

#[test]
fn searching() {
    assert_eq!(find_exec(&c("hello world"), &c("o")), Some(4));
    assert_eq!(find_exec(&c("hello"), &c("")), Some(0));
    assert_eq!(find_exec(&c("hello"), &c("xyz")), None);
    assert!(contains_exec(&c("state: 'connected'"), &c("connected")));
    assert_eq!(rfind_char_exec(&c("a*b*c"), '*'), Some(3));
    assert_eq!(chars_of("héllo"), c("héllo"));
}

#[test]
fn numbers() {
    assert_eq!(parse_u32(&c("4294967295")), Some(u32::MAX));
    assert_eq!(parse_u32(&c("4294967296")), None);
    assert_eq!(parse_u32(&c("+7")), Some(7));
    assert_eq!(parse_u32(&c("")), None);
    assert_eq!(parse_u32(&c("1 2")), None);
    assert_eq!(parse_u8(&c("255")), Some(255));
    assert_eq!(parse_u8(&c("256")), None);
    assert_eq!(parse_u64(&c("18446744073709551615")), Some(u64::MAX));
    assert_eq!(parse_i32(&c("-2147483648")), Some(i32::MIN));
    assert_eq!(parse_i32(&c("2147483648")), None);
    assert_eq!(parse_i32(&c("-")), None);
    assert_eq!(parse_i32(&c("-5")), Some(-5));
}

#[test]
fn decimal_round_trip() {
    for n in [0u64, 7, 10, 12345, u64::MAX] {
        let d = decimal_exec(n);
        assert_eq!(string_from_chars(&d), n.to_string());
        assert_eq!(parse_u64(&d), Some(n));
    }
}
