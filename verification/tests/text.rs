use noull_pm::ops::normalize;
use noull_pm::order::less;
use noull_pm::text::{
    chars_of, concat3, contains, count, decimal, join, lines, parse_hex, search, split, split_once,
    starts_with, ends_with, string_of, to_upper, trim, trim_leading, words, Class,
};

fn strings(list: &[&str]) -> Vec<String> {
    list.iter().map(|s| s.to_string()).collect()
}

fn pieces(parts: Vec<&[char]>) -> Vec<String> {
    parts.into_iter().map(string_of).collect()
}

fn every_char() -> Vec<char> {
    (0u32..0x110000).filter_map(char::from_u32).collect()
}

#[test]
fn white_space_is_what_trims() {
    for c in every_char() {
        let s: Vec<char> = vec![c];
        assert_eq!(trim(&s).is_empty(), c.is_whitespace(), "{:x}", c as u32);
        assert_eq!(Class::Space.test(c), c.is_whitespace());
        assert_eq!(Class::Visible.test(c), !c.is_whitespace());
    }
}

#[test]
fn normalizing_drops_and_lowers_as_characters_do() {
    for c in every_char() {
        let expected: Vec<char> = if c.is_alphanumeric() {
            c.to_lowercase().collect()
        } else {
            Vec::new()
        };
        assert_eq!(normalize(&[c]), expected);
    }
}

#[test]
fn lines_end_as_std_ends_them() {
    for s in ["", "a", "a\n", "a\r\nb", "a\n\nb\n", "\n", "\r\n", "a\rb", "a\r", "x\n\r\ny\r"] {
        let chars = chars_of(s);
        let expected: Vec<String> = s.lines().map(|l| l.to_string()).collect();
        assert_eq!(pieces(lines(&chars)), expected, "{s:?}");
    }
}

#[test]
fn words_are_split_at_white_space() {
    for s in ["", "  ", "a", " a b\tc\n", "one\u{3000}two", "x  y "] {
        let chars = chars_of(s);
        let expected: Vec<String> = s.split_whitespace().map(|l| l.to_string()).collect();
        assert_eq!(pieces(words(&chars)), expected, "{s:?}");
    }
}

#[test]
fn parts_are_split_at_a_separator() {
    for s in ["", "\n\n", "a\n\nb", "a\n\n\nb", "a\n\n\n\nb", "a\nb"] {
        let chars = chars_of(s);
        let sep = chars_of("\n\n");
        let expected: Vec<String> = s.split("\n\n").map(|l| l.to_string()).collect();
        assert_eq!(pieces(split(&chars, &sep)), expected, "{s:?}");
    }
}

#[test]
fn a_text_is_cut_once() {
    let s = chars_of("a=b=c");
    let (k, v) = split_once(&s, '=').unwrap();
    assert_eq!((string_of(k), string_of(v)), ("a".to_string(), "b=c".to_string()));
    assert!(split_once(&s, ':').is_none());
}

#[test]
fn texts_are_searched() {
    let s = chars_of("abcabc");
    assert_eq!(search(&s, &chars_of("ca")), Some(2));
    assert_eq!(search(&s, &chars_of("")), Some(0));
    assert_eq!(search(&s, &chars_of("x")), None);
    assert!(contains(&s, &chars_of("bca")));
    assert!(!contains(&s, &chars_of("cb")));
    assert!(starts_with(&s, &chars_of("abc")));
    assert!(!starts_with(&s, &chars_of("bc")));
    assert!(ends_with(&s, &chars_of("bc")));
    assert!(!ends_with(&s, &chars_of("ab")));
    assert_eq!(string_of(trim_leading(&chars_of("(+(+12"), &chars_of("(+"))), "12");
}

#[test]
fn numbers_are_written_in_decimal() {
    for n in [0, 1, 9, 10, 99, 100, 12345, usize::MAX] {
        assert_eq!(decimal(n), n.to_string());
    }
    assert_eq!(count("a ", 42, " b"), "a 42 b");
}

#[test]
fn hexadecimal_numbers_are_read() {
    for s in ["", "0", "ff", "FF", "+1f", "-1", "g", "1234", "+123", "++1", "+", "00aF", " 1"] {
        let chars = chars_of(s);
        assert_eq!(parse_hex(&chars), u32::from_str_radix(s, 16).ok(), "{s:?}");
    }
}

#[test]
fn pieces_are_joined() {
    assert_eq!(join(&strings(&[]), ", "), "");
    assert_eq!(join(&strings(&["a"]), ", "), "a");
    assert_eq!(join(&strings(&["a", "b", "c"]), ", "), "a, b, c");
    assert_eq!(concat3("a", "b", "c"), "abc");
}

#[test]
fn letters_are_raised() {
    assert_eq!(to_upper('d'), 'D');
    assert_eq!(to_upper('D'), 'D');
    assert_eq!(to_upper('ß'), 'ß');
    assert_eq!(to_upper(' '), ' ');
}

#[test]
fn names_are_ordered_as_std_orders_them() {
    let names = ["", "a", "aa", "ab", "b", "B", "é", "ž", "zz", "\u{ffff}", "\u{10000}"];
    for a in names {
        for b in names {
            assert_eq!(less(a, b), a < b, "{a:?} {b:?}");
        }
    }
}
