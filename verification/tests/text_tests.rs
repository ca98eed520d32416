use flashback::text::{
    after_last_sep_chars, before_first_chars, chars_eq_ignore_ascii_case, chars_of, find_chars, parse_u32,
    push_padded_decimal, remove_chars, string_from_chars, trim_char_chars, trim_chars, trim_start_char_chars,
};

fn s(v: &[char]) -> String {
    string_from_chars(v)
}

#[test]
fn parse_u32_like_str_parse() {
    assert_eq!(parse_u32(&chars_of("220")), Some(220));
    assert_eq!(parse_u32(&chars_of("+7")), Some(7));
    assert_eq!(parse_u32(&chars_of("007")), Some(7));
    assert_eq!(parse_u32(&chars_of("4294967295")), Some(u32::MAX));
    assert_eq!(parse_u32(&chars_of("4294967296")), None);
    assert_eq!(parse_u32(&chars_of("")), None);
    assert_eq!(parse_u32(&chars_of("+")), None);
    assert_eq!(parse_u32(&chars_of("-1")), None);
    assert_eq!(parse_u32(&chars_of("12a")), None);
}

#[test]
fn trimming() {
    assert_eq!(s(&trim_chars(&chars_of("\t a b \u{3000}\n"))), "a b");
    assert_eq!(s(&trim_chars(&chars_of("   "))), "");
    assert_eq!(s(&trim_char_chars(&chars_of("--a-b--"), '-')), "a-b");
    assert_eq!(s(&trim_start_char_chars(&chars_of(">>a>"), '>')), "a>");
}

#[test]
fn searching_and_splitting() {
    assert_eq!(find_chars(&chars_of("abcabc"), &chars_of("ca")), Some(2));
    assert_eq!(find_chars(&chars_of("abc"), &chars_of("")), Some(0));
    assert_eq!(find_chars(&chars_of("ab"), &chars_of("abc")), None);
    assert_eq!(s(&after_last_sep_chars(&chars_of("a/b\\c.exe"))), "c.exe");
    assert_eq!(s(&after_last_sep_chars(&chars_of("dir/"))), "");
    assert_eq!(s(&before_first_chars(&chars_of("a#b#c"), '#')), "a");
    assert_eq!(s(&before_first_chars(&chars_of("abc"), '#')), "abc");
}

#[test]
fn case_and_marks() {
    assert!(chars_eq_ignore_ascii_case(&chars_of("Half-Life 2"), &chars_of("HALF-life 2")));
    assert!(!chars_eq_ignore_ascii_case(&chars_of("Ä"), &chars_of("ä")));
    assert_eq!(s(&remove_chars(&chars_of("Game™ ®©"), &['™', '®', '©'])), "Game ");
}

#[test]
fn padded_numbers() {
    let mut v = Vec::new();
    push_padded_decimal(&mut v, 7, 3);
    push_padded_decimal(&mut v, 12345, 2);
    assert_eq!(s(&v), "00712345");
}
