use nyannix::text::{
    is_whitespace, join_from, parse_color, split_lines, str_equal, str_less, string_from_chars,
    to_chars, tokenize, trim,
};

fn strings(items: &[&str]) -> Vec<String> {
    items.iter().map(|s| String::from(*s)).collect()
}

#[test]
fn str_less_orders_by_code_point() {
    assert!(str_less("a", "b"));
    assert!(!str_less("b", "a"));
    assert!(!str_less("abc", "abc"));
    assert!(str_less("ab", "abc"));
    assert!(!str_less("abc", "ab"));
    assert!(str_less("", "a"));
    assert!(!str_less("", ""));
    assert!(str_less("Z", "a"));
    assert!(str_less("a", "é"));
    assert!(str_less("é", "日"));
}

#[test]
fn str_less_agrees_with_the_standard_order() {
    let samples = ["", "a", "ab", "abc", "b", "B", "docs", "doc", "日本", "é", "zz", "z"];
    for a in samples.iter() {
        for b in samples.iter() {
            assert_eq!(str_less(a, b), a < b, "{:?} < {:?}", a, b);
            assert_eq!(str_equal(a, b), a == b, "{:?} == {:?}", a, b);
        }
    }
}

#[test]
fn to_chars_and_back() {
    let chars = to_chars("héllo");
    assert_eq!(chars, vec!['h', 'é', 'l', 'l', 'o']);
    assert_eq!(string_from_chars(&chars, 1, 4), "éll");
    assert_eq!(string_from_chars(&chars, 2, 2), "");
    assert_eq!(string_from_chars(&chars, 0, 5), "héllo");
}

#[test]
fn whitespace_is_the_unicode_property() {
    for code in 0u32..0x3100 {
        if let Some(c) = char::from_u32(code) {
            assert_eq!(is_whitespace(c), c.is_whitespace(), "U+{:04X}", code);
        }
    }
}

#[test]
fn tokenize_splits_on_runs_of_whitespace() {
    assert_eq!(tokenize("echo hello world"), strings(&["echo", "hello", "world"]));
    assert_eq!(tokenize("  cd   docs  "), strings(&["cd", "docs"]));
    assert_eq!(tokenize("a\tb\nc"), strings(&["a", "b", "c"]));
    assert_eq!(tokenize(""), strings(&[]));
    assert_eq!(tokenize("   "), strings(&[]));
    assert_eq!(tokenize("single"), strings(&["single"]));
}

#[test]
fn tokenize_agrees_with_split_whitespace() {
    let samples = ["", " ", "a", " a", "a ", "a b", "a  b", "\ta\u{a0}b c\n", "mkdir   docs", "x\u{3000}y"];
    for s in samples.iter() {
        let expected: Vec<String> = s.split_whitespace().map(String::from).collect();
        assert_eq!(tokenize(s), expected, "{:?}", s);
    }
}

#[test]
fn split_lines_ends_a_line_at_each_break() {
    assert_eq!(split_lines("hello world\n"), strings(&["hello world"]));
    assert_eq!(split_lines("a\nb"), strings(&["a", "b"]));
    assert_eq!(split_lines("a\nb\n"), strings(&["a", "b"]));
    assert_eq!(split_lines("\n"), strings(&[""]));
    assert_eq!(split_lines(""), strings(&[]));
    assert_eq!(split_lines("a\n\n"), strings(&["a", ""]));
    assert_eq!(split_lines("\n\nb"), strings(&["", "", "b"]));
    assert_eq!(split_lines("no break"), strings(&["no break"]));
}

#[test]
fn join_from_puts_one_space_between_words() {
    let words = strings(&["echo", "hello", "world"]);
    assert_eq!(join_from(&words, 1), "hello world");
    assert_eq!(join_from(&words, 0), "echo hello world");
    assert_eq!(join_from(&words, 2), "world");
    assert_eq!(join_from(&words, 3), "");
}

#[test]
fn trim_removes_white_space_at_both_ends() {
    assert_eq!(trim("  foobar \t\n"), "foobar");
    assert_eq!(trim("a b"), "a b");
    assert_eq!(trim("  a  b  "), "a  b");
    assert_eq!(trim(""), "");
    assert_eq!(trim(" \u{a0} "), "");
    for s in ["", " x", "x ", " x y ", "\n\n", "日本 "].iter() {
        assert_eq!(trim(s), s.trim(), "{:?}", s);
    }
}

#[test]
fn parse_color_reads_hexadecimal() {
    assert_eq!(parse_color("00ff00"), Some(0x00FF00));
    assert_eq!(parse_color("0xFF0000"), Some(0xFF0000));
    assert_eq!(parse_color("FFFFFFFF"), Some(0xFFFF_FFFF));
    assert_eq!(parse_color("0"), Some(0));
    assert_eq!(parse_color("aBcDeF"), Some(0xABCDEF));
    assert_eq!(parse_color("0000000000ff"), Some(0xFF));
    assert_eq!(parse_color("+ff"), Some(0xFF));
    assert_eq!(parse_color("0x0xff"), Some(0xFF));
}

#[test]
fn parse_color_refuses_what_is_no_colour() {
    assert_eq!(parse_color("zz"), None);
    assert_eq!(parse_color(""), None);
    assert_eq!(parse_color("0x"), None);
    assert_eq!(parse_color("+"), None);
    assert_eq!(parse_color("-1"), None);
    assert_eq!(parse_color("12g4"), None);
    assert_eq!(parse_color("100000000"), None);
    assert_eq!(parse_color("FFFFFFFFF"), None);
    assert_eq!(parse_color("ff "), None);
    assert_eq!(parse_color("++1"), None);
}

#[test]
fn parse_color_agrees_with_from_str_radix() {
    let samples = [
        "0", "1", "ff", "FF", "00ff00", "ffffffff", "100000000", "", "+", "+1", "-1", "g", "0x",
        "0x10", "0x0x10", "x10", "7fffffff", "80000000", "deadbeef", "dead beef", "0X10",
    ];
    for s in samples.iter() {
        let expected = u32::from_str_radix(s.trim_start_matches("0x"), 16).ok();
        assert_eq!(parse_color(s), expected, "{:?}", s);
    }
}
