use netwolf::number::{decimal_chars, read_decimal, read_u16, read_u8};
use netwolf::text::{
    chars_of, copy_range, find_char, first_line_of, has_prefix, is_space_char, lines_of,
    same_chars, split_chars, string_of, trim_chars,
};

fn chars(s: &str) -> Vec<char> {
    s.chars().collect()
}

fn strings(parts: Vec<Vec<char>>) -> Vec<String> {
    parts.into_iter().map(|p| p.into_iter().collect()).collect()
}

#[test]
fn chars_of_and_string_of_are_inverse() {
    let text = "na\u{ef}ve caf\u{e9} \u{1F600}";
    let v = chars_of(text);
    assert_eq!(v, chars(text));
    assert_eq!(string_of(&v), text);
    assert_eq!(string_of(&[]), "");
}

#[test]
fn copy_range_takes_the_middle() {
    assert_eq!(copy_range(&chars("abcdef"), 2, 4), chars("cd"));
    assert_eq!(copy_range(&chars("abcdef"), 3, 3), chars(""));
    assert_eq!(copy_range(&chars("abcdef"), 0, 6), chars("abcdef"));
}

#[test]
fn same_chars_and_has_prefix() {
    assert!(same_chars(&chars("abc"), &chars("abc")));
    assert!(!same_chars(&chars("abc"), &chars("abd")));
    assert!(!same_chars(&chars("abc"), &chars("ab")));
    assert!(has_prefix(&chars("abc"), &chars("")));
    assert!(has_prefix(&chars("abc"), &chars("ab")));
    assert!(has_prefix(&chars("abc"), &chars("abc")));
    assert!(!has_prefix(&chars("abc"), &chars("abcd")));
    assert!(!has_prefix(&chars("abc"), &chars("b")));
}

#[test]
fn find_char_gives_first_position_or_length() {
    assert_eq!(find_char(&chars("a.b.c"), 0, '.'), 1);
    assert_eq!(find_char(&chars("a.b.c"), 2, '.'), 3);
    assert_eq!(find_char(&chars("a.b.c"), 4, '.'), 5);
    assert_eq!(find_char(&chars(""), 0, '.'), 0);
}

#[test]
fn split_keeps_empty_pieces() {
    assert_eq!(strings(split_chars(&chars("a b c"), ' ')), vec!["a", "b", "c"]);
    assert_eq!(strings(split_chars(&chars(""), ' ')), vec![""]);
    assert_eq!(strings(split_chars(&chars(" "), ' ')), vec!["", ""]);
    assert_eq!(strings(split_chars(&chars("a  b"), ' ')), vec!["a", "", "b"]);
    assert_eq!(strings(split_chars(&chars("abc"), ' ')), vec!["abc"]);
    assert_eq!(strings(split_chars(&chars("a:b:"), ':')), vec!["a", "b", ""]);
}

#[test]
fn lines_follow_line_feeds() {
    assert_eq!(strings(lines_of(&chars("foo\nbar\n\r\nbaz\r"))), vec!["foo", "bar", "", "baz\r"]);
    assert_eq!(strings(lines_of(&chars("foo\r\nbar"))), vec!["foo", "bar"]);
    assert_eq!(strings(lines_of(&chars(""))), Vec::<String>::new());
    assert_eq!(strings(lines_of(&chars("\n"))), vec![""]);
    assert_eq!(strings(lines_of(&chars("a\n\nb\n"))), vec!["a", "", "b"]);
    assert_eq!(strings(lines_of(&chars("a\r\r\n"))), vec!["a\r"]);
}

#[test]
fn lines_agree_with_the_standard_library() {
    for text in ["", "\n", "a", "a\n", "a\r\n", "a\rb\r", "x\n\ny", "\r\n\r\n", "GET\na.txt", "\r"] {
        let expected: Vec<String> = text.lines().map(|l| l.to_string()).collect();
        assert_eq!(strings(lines_of(&chars(text))), expected, "lines of {:?}", text);
        let first: String = first_line_of(&chars(text)).into_iter().collect();
        assert_eq!(first, text.lines().next().unwrap_or(""), "first line of {:?}", text);
    }
}

#[test]
fn first_line_stops_at_the_line_feed() {
    let line: String = first_line_of(&chars("DISC\r\nrest")).into_iter().collect();
    assert_eq!(line, "DISC");
    let line: String = first_line_of(&chars("no line feed\r")).into_iter().collect();
    assert_eq!(line, "no line feed\r");
    let line: String = first_line_of(&chars("\nsecond")).into_iter().collect();
    assert_eq!(line, "");
}

#[test]
fn trim_removes_white_space_at_both_ends() {
    let t: String = trim_chars(&chars("  a.txt\r\n")).into_iter().collect();
    assert_eq!(t, "a.txt");
    let t: String = trim_chars(&chars("\t a b \u{3000}")).into_iter().collect();
    assert_eq!(t, "a b");
    let t: String = trim_chars(&chars(" \n ")).into_iter().collect();
    assert_eq!(t, "");
    let t: String = trim_chars(&chars("")).into_iter().collect();
    assert_eq!(t, "");
}

#[test]
fn white_space_is_what_the_standard_library_calls_so() {
    for code in 0u32..0x3100 {
        if let Some(c) = char::from_u32(code) {
            assert_eq!(is_space_char(c), c.is_whitespace(), "U+{:04X}", code);
        }
    }
}

#[test]
fn numbers_are_read_as_the_standard_library_reads_them() {
    for text in ["0", "7", "007", "+5", "65535", "65536", "99999999999", "", "+", "-1", "12a", " 1", "1 ", "++1", "255", "256"] {
        assert_eq!(read_u16(&chars(text)), text.parse::<u16>().ok(), "u16 of {:?}", text);
        assert_eq!(read_u8(&chars(text)), text.parse::<u8>().ok(), "u8 of {:?}", text);
    }
}

#[test]
fn read_decimal_respects_its_bound() {
    assert_eq!(read_decimal(&chars("3"), 2), None);
    assert_eq!(read_decimal(&chars("2"), 2), Some(2));
    assert_eq!(read_decimal(&chars("0000"), 0), Some(0));
    assert_eq!(read_decimal(&chars("429496729600"), 0xffff), None);
}

#[test]
fn decimal_text_is_shortest() {
    assert_eq!(decimal_chars(0), chars("0"));
    assert_eq!(decimal_chars(9), chars("9"));
    assert_eq!(decimal_chars(10), chars("10"));
    assert_eq!(decimal_chars(3222), chars("3222"));
    assert_eq!(decimal_chars(65535), chars("65535"));
    assert_eq!(decimal_chars(4294967295), chars("4294967295"));
}

#[test]
fn decimal_text_is_read_back() {
    for n in [0u32, 1, 9, 10, 99, 100, 255, 256, 3222, 65535] {
        assert_eq!(read_decimal(&decimal_chars(n), 0xffff), Some(n));
    }
}
