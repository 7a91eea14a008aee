use zenlixem::number::{
    digit_of, parse_digits, parse_hex_u16, parse_hex_u32, parse_hex_u8, parse_i32, parse_u64,
    parse_unsigned, push_decimal, push_hex_byte, push_signed_decimal,
};
use zenlixem::order::{dedup, reversed, sort_stable};
use zenlixem::text::{
    chars_of, code_point, copy_range, field_ranges, find_char, is_whitespace, sort_dedup_texts,
    split_fields, text_eq, text_le,
};
use zenlixem::{contains_text, find_text};

fn c(s: &str) -> Vec<char> {
    s.chars().collect()
}

fn words(line: &str) -> Vec<String> {
    split_fields(&c(line)).into_iter().map(|w| w.into_iter().collect()).collect()
}

#[test]
fn chars_of_text() {
    assert_eq!(chars_of("ab\u{e9}\u{1f980}"), vec!['a', 'b', '\u{e9}', '\u{1f980}']);
    assert_eq!(chars_of(""), Vec::<char>::new());
    assert_eq!(code_point('A'), 65);
    assert_eq!(code_point('\u{10ffff}'), 0x10ffff);
}

#[test]
fn white_space_is_what_the_language_says() {
    for u in 0u32..=0x3100 {
        if let Some(ch) = char::from_u32(u) {
            assert_eq!(is_whitespace(ch), ch.is_whitespace(), "U+{:04X}", u);
        }
    }
    assert!(!is_whitespace('\u{feff}'));
    assert!(!is_whitespace('\u{10ffff}'));
}

#[test]
fn fields_are_runs_without_white_space() {
    assert_eq!(words("a bc  def"), vec!["a", "bc", "def"]);
    assert_eq!(words("  lead and trail \t\r\n"), vec!["lead", "and", "trail"]);
    assert_eq!(words(""), Vec::<String>::new());
    assert_eq!(words(" \t "), Vec::<String>::new());
    assert_eq!(words("one"), vec!["one"]);
    assert_eq!(words("a\u{a0}b\u{3000}c"), vec!["a", "b", "c"]);
    let line = "  sl  local_address rem_address   st";
    let want: Vec<String> = line.split_whitespace().map(|w| w.to_string()).collect();
    assert_eq!(words(line), want);
}

#[test]
fn field_ranges_mark_the_fields() {
    assert_eq!(field_ranges(&c(" ab  c")), vec![(1, 3), (5, 6)]);
    assert_eq!(field_ranges(&c("ab")), vec![(0, 2)]);
    assert_eq!(field_ranges(&c("")), vec![]);
}

#[test]
fn find_and_copy() {
    let s = c("a:b:c");
    assert_eq!(find_char(&s, ':', 0), 1);
    assert_eq!(find_char(&s, ':', 1), 1);
    assert_eq!(find_char(&s, ':', 2), 3);
    assert_eq!(find_char(&s, ':', 4), 5);
    assert_eq!(find_char(&s, ':', 5), 5);
    assert_eq!(find_char(&s, 'x', 0), 5);
    assert_eq!(copy_range(&s, 2, 5), c("b:c"));
    assert_eq!(copy_range(&s, 3, 3), c(""));
    assert_eq!(find_text(&c("hello world"), &c("o w")), Some(4));
    assert_eq!(find_text(&c("hello"), &c("l")), Some(2));
    assert_eq!(find_text(&c("hello"), &c("hello")), Some(0));
    assert_eq!(find_text(&c("hello"), &c("hello!")), None);
    assert_eq!(find_text(&c("hello"), &c("lo!")), None);
    assert_eq!(find_text(&c("hello"), &c("")), Some(0));
    assert_eq!(find_text(&c(""), &c("")), Some(0));
    assert_eq!(find_text(&c("aab"), &c("ab")), Some(1));
    assert!(contains_text(&c("type=PATH x"), "type=PATH"));
    assert!(!contains_text(&c("type=PAT"), "type=PATH"));
}

#[test]
fn text_comparison_is_by_code_point() {
    let all = ["", "a", "ab", "b", "B", "a\u{e9}", "az", "\u{1f980}", "memory mapped", "open fd"];
    for x in all {
        for y in all {
            assert_eq!(text_le(x, y), x <= y, "{:?} {:?}", x, y);
            assert_eq!(text_eq(x, y), x == y, "{:?} {:?}", x, y);
        }
    }
}

#[test]
fn texts_sorted_and_unique() {
    let v: Vec<String> = ["b", "a", "c", "a", "b", "", "ab"].iter().map(|s| s.to_string()).collect();
    assert_eq!(sort_dedup_texts(v), vec!["", "a", "ab", "b", "c"]);
    assert_eq!(sort_dedup_texts(Vec::new()), Vec::<String>::new());
}

#[test]
fn sorting_is_stable_and_dedup_keeps_the_first() {
    assert_eq!(sort_stable(vec![3, 1, 2, 1, -5, 3]), vec![-5, 1, 1, 2, 3, 3]);
    assert_eq!(sort_stable(Vec::<i32>::new()), vec![]);
    assert_eq!(dedup(vec![1, 1, 2, 1, 1, 3, 3]), vec![1, 2, 1, 3]);
    assert_eq!(dedup(Vec::<i32>::new()), vec![]);
    assert_eq!(reversed(vec![1, 2, 3]), vec![3, 2, 1]);
    let mut want = vec![5, 3, 9, 3, 0, -1, 9];
    let got = sort_stable(want.clone());
    want.sort();
    assert_eq!(got, want);
}

#[test]
fn digits() {
    assert_eq!(digit_of('0'), Some(0));
    assert_eq!(digit_of('9'), Some(9));
    assert_eq!(digit_of('a'), Some(10));
    assert_eq!(digit_of('F'), Some(15));
    assert_eq!(digit_of('z'), Some(35));
    assert_eq!(digit_of('Z'), Some(35));
    assert_eq!(digit_of(' '), None);
    assert_eq!(digit_of('_'), None);
    assert_eq!(digit_of('\u{663}'), None);
}

#[test]
fn unsigned_numbers_as_the_language_reads_them() {
    let texts = [
        "", "+", "-", "0", "00", "+0", "-0", "7", "+7", "++7", "255", "256", "0255", "ff", "FF",
        "fF", "100", "g", "1g", " 1", "1 ", "1_0", "0x10", "65535", "65536", "ffff", "10000",
        "4294967295", "4294967296", "ffffffff", "100000000", "18446744073709551615",
        "18446744073709551616", "ffffffffffffffff", "10000000000000000", "99999999999999999999",
    ];
    for t in texts {
        assert_eq!(parse_hex_u8(&c(t)), u8::from_str_radix(t, 16).ok(), "{:?}", t);
        assert_eq!(parse_hex_u16(&c(t)), u16::from_str_radix(t, 16).ok(), "{:?}", t);
        assert_eq!(parse_hex_u32(&c(t)), u32::from_str_radix(t, 16).ok(), "{:?}", t);
        assert_eq!(parse_u64(&c(t)), t.parse::<u64>().ok(), "{:?}", t);
        assert_eq!(parse_unsigned(&c(t), 16, u64::MAX), u64::from_str_radix(t, 16).ok(), "{:?}", t);
        assert_eq!(parse_unsigned(&c(t), 2, u64::MAX), u64::from_str_radix(t, 2).ok(), "{:?}", t);
        assert_eq!(parse_unsigned(&c(t), 36, u64::MAX), u64::from_str_radix(t, 36).ok(), "{:?}", t);
    }
    assert_eq!(parse_digits(&c("x12"), 1, 10, 100), Some(12));
    assert_eq!(parse_digits(&c("x12"), 1, 10, 11), None);
    assert_eq!(parse_digits(&c("x12"), 3, 10, 11), Some(0));
}

#[test]
fn signed_numbers_as_the_language_reads_them() {
    let texts = [
        "", "+", "-", "0", "-0", "+0", "7", "-7", "+7", "--7", "-+7", "2147483647", "2147483648",
        "-2147483648", "-2147483649", "007", "-007", "1x", " 1", "99999999999",
    ];
    for t in texts {
        assert_eq!(parse_i32(&c(t)), t.parse::<i32>().ok(), "{:?}", t);
    }
}

#[test]
fn numbers_written() {
    for n in [0u64, 1, 9, 10, 11, 99, 100, 12345, u32::MAX as u64, u64::MAX] {
        let mut s = String::from(">");
        push_decimal(&mut s, n);
        assert_eq!(s, format!(">{}", n));
    }
    for n in [0i32, 1, -1, 10, -10, i32::MAX, i32::MIN] {
        let mut s = String::new();
        push_signed_decimal(&mut s, n);
        assert_eq!(s, format!("{}", n));
    }
    for b in 0u8..=255 {
        let mut s = String::new();
        push_hex_byte(&mut s, b);
        assert_eq!(s, format!("0x{:02X}", b));
    }
}
