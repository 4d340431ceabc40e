//! Text functions, held against the standard library where it has the same.

use cce_preview::text::{
    chars_of, parse_i32, parse_usize, position_of, push_decimal, rest_after, split_line, split_word,
    string_of, strip_prefix, trim, trim_start, white_space,
};

const SAMPLES: [&str; 16] = [
    "",
    " ",
    "\n",
    "\r\n",
    "a",
    "a\n",
    "a\r\nb",
    "a\r\rb\n\n c\r",
    "\r",
    "  595.276 x 841.89 pts (A4)  ",
    "Page    1 size:  612 x 792 pts (letter)",
    "\u{a0}\u{2003}x\u{3000}y\u{85}",
    "one two\tthree\u{b}four\u{c}five",
    "é ü — ·",
    "x\u{200b}y",
    "Pages:          12\nEncrypted: no\n",
];

fn lines_of(text: &str) -> Vec<String> {
    let chars = chars_of(text);
    let mut rest: &[char] = &chars;
    let mut out = Vec::new();
    while !rest.is_empty() {
        let (line, tail) = split_line(rest);
        out.push(string_of(line));
        rest = tail;
    }
    out
}

fn words_of(text: &str) -> Vec<String> {
    let chars = chars_of(text);
    let mut rest: &[char] = &chars;
    let mut out = Vec::new();
    while let Some((word, tail)) = split_word(rest) {
        out.push(string_of(word));
        rest = tail;
    }
    out
}

#[test]
fn white_space_is_unicode_white_space() {
    for u in 0..=0x10ffffu32 {
        if let Some(c) = char::from_u32(u) {
            assert_eq!(white_space(c), c.is_whitespace(), "{:x}", u);
        }
    }
}

#[test]
fn characters_make_the_same_string_again() {
    for s in SAMPLES {
        assert_eq!(string_of(&chars_of(s)), s);
        assert_eq!(chars_of(s), s.chars().collect::<Vec<char>>());
    }
}

#[test]
fn lines_are_those_of_the_standard_library() {
    for s in SAMPLES {
        assert_eq!(lines_of(s), s.lines().map(|l| l.to_string()).collect::<Vec<String>>());
    }
}

#[test]
fn words_are_those_of_the_standard_library() {
    for s in SAMPLES {
        assert_eq!(
            words_of(s),
            s.split_whitespace().map(|w| w.to_string()).collect::<Vec<String>>()
        );
    }
}

#[test]
fn trimming_takes_white_space_off() {
    for s in SAMPLES {
        let chars = chars_of(s);
        assert_eq!(string_of(trim(&chars)), s.trim());
        assert_eq!(string_of(trim_start(&chars)), s.trim_start());
    }
}

#[test]
fn prefixes_come_off_whole() {
    let chars = chars_of("Pages: 12");
    assert_eq!(strip_prefix(&chars, "Pages:").map(string_of), Some(" 12".to_string()));
    assert_eq!(strip_prefix(&chars, "").map(string_of), Some("Pages: 12".to_string()));
    assert_eq!(strip_prefix(&chars, "pages:").map(string_of), None);
    assert_eq!(strip_prefix(&chars, "Pages: 12 ").map(string_of), None);
}

#[test]
fn the_first_occurrence_counts() {
    let chars = chars_of("1 size: 3 x 4");
    assert_eq!(position_of(&chars, ' '), 1);
    assert_eq!(position_of(&chars, '#'), chars.len());
    assert_eq!(rest_after(&chars, ' ').map(string_of), Some("size: 3 x 4".to_string()));
    assert_eq!(rest_after(&chars, '#').map(string_of), None);
}

#[test]
fn numbers_are_read_as_the_standard_library_reads_them() {
    for s in [
        "",
        "0",
        "7",
        "+7",
        "-7",
        "+",
        "-",
        "+-7",
        "007",
        "7 ",
        " 7",
        "7.0",
        "0x7",
        "-0",
        "2147483647",
        "2147483648",
        "-2147483648",
        "-2147483649",
        "18446744073709551615",
        "18446744073709551616",
        "99999999999999999999999999999999",
        "٣",
    ] {
        let chars = chars_of(s);
        assert_eq!(parse_usize(&chars), s.parse::<usize>().ok(), "{}", s);
        assert_eq!(parse_i32(&chars), s.parse::<i32>().ok(), "{}", s);
    }
}

#[test]
fn written_numbers_read_back() {
    for n in [0u64, 1, 9, 10, 11, 99, 100, 4096, 18446744073709551615] {
        let mut s = "n=".to_string();
        push_decimal(&mut s, n);
        assert_eq!(s, format!("n={}", n));
        assert_eq!(parse_usize(&chars_of(&s[2..])), Some(n as usize));
    }
}
