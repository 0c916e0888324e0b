use pmt::text::{
    is_whitespace, push_chars, split_words, starts_with, strip, to_chars, to_string, trim,
};

fn chars(s: &str) -> Vec<char> {
    s.chars().collect()
}

fn text(s: &[char]) -> String {
    s.iter().collect()
}

#[test]
fn whitespace_is_the_unicode_property() {
    for code in 0u32..=0x10FFFF {
        if let Some(c) = char::from_u32(code) {
            assert_eq!(is_whitespace(c), c.is_whitespace(), "U+{:04X}", code);
        }
    }
}

#[test]
fn whitespace_counts_twenty_five_characters() {
    let count = (0u32..=0x10FFFF)
        .filter_map(char::from_u32)
        .filter(|c| is_whitespace(*c))
        .count();
    assert_eq!(count, 25);
}

#[test]
fn to_chars_and_back() {
    let s = "héllo 世界 \u{1F600}";
    let v = to_chars(s);
    assert_eq!(v, chars(s));
    assert_eq!(to_string(&v), s);
    assert_eq!(to_chars(""), Vec::<char>::new());
    assert_eq!(to_string(&[]), "");
}

#[test]
fn push_chars_appends() {
    let mut s = String::from("ab");
    push_chars(&mut s, &chars("cd"));
    assert_eq!(s, "abcd");
    push_chars(&mut s, &[]);
    assert_eq!(s, "abcd");
}

#[test]
fn trim_agrees_with_std() {
    let cases = [
        "",
        " ",
        "a",
        "  a  ",
        "\t a b \n",
        "\u{3000}x\u{a0}",
        "a ",
        " a",
        " \r\n ",
        "x\u{200b}",
        "\u{85}mid dle\u{2028}",
    ];
    for case in cases {
        assert_eq!(text(trim(&chars(case))), case.trim(), "{:?}", case);
    }
}

#[test]
fn strip_takes_off_every_comma_at_the_ends() {
    let cases = ["", ",", ",,a,,", "a,b", ",a", "a,", ",,,", " ,a, "];
    for case in cases {
        assert_eq!(text(strip(&chars(case), ',')), case.trim_matches(','), "{:?}", case);
    }
}

#[test]
fn starts_with_compares_the_beginning() {
    assert!(starts_with(&chars("random|a"), &chars("random|")));
    assert!(starts_with(&chars("random|"), &chars("random|")));
    assert!(!starts_with(&chars("random"), &chars("random|")));
    assert!(!starts_with(&chars("Random|a"), &chars("random|")));
    assert!(starts_with(&chars("abc"), &[]));
    assert!(starts_with(&[], &[]));
}

#[test]
fn split_words_agrees_with_std() {
    let cases = ["", " ", "a", " a  b\tc\n", "one", "  x", "x  ", "a\u{3000}b\u{a0}c", "a,b ,c"];
    for case in cases {
        let expected: Vec<String> = case.split_whitespace().map(String::from).collect();
        assert_eq!(split_words(case), expected, "{:?}", case);
    }
}
