use milim_web::text::{
    begins_with, digit_char, drop_spaces, index_of, is_whitespace, position_of, push_decimal,
    same_bytes, same_chars, same_text, skip_spaces, split_on, split_words, stripped, to_chars,
    to_text, trimmed, word_length,
};

fn chars(s: &str) -> Vec<char> {
    s.chars().collect()
}

fn texts(parts: Vec<&[char]>) -> Vec<String> {
    parts.into_iter().map(|p| p.iter().collect()).collect()
}

#[test]
fn chars_and_text_are_inverse() {
    let s = "a\u{e9}\u{1f600}\r\n";
    assert_eq!(to_chars(s), chars(s));
    assert_eq!(to_text(&to_chars(s)), s);
    assert_eq!(to_text(&[]), "");
}

#[test]
fn white_space_is_what_unicode_says() {
    for n in 0u32..0x11000 {
        if let Some(c) = char::from_u32(n) {
            assert_eq!(is_whitespace(c), c.is_whitespace(), "{:x}", n);
        }
    }
}

#[test]
fn position_of_finds_the_first_occurrence() {
    let s = chars("ab\r\n\r\ncd\r\n\r\n");
    let gap = chars("\r\n\r\n");
    assert_eq!(position_of(&s, &gap), 2);
    assert_eq!(position_of(&chars("abc"), &gap), 3);
    assert_eq!(position_of(&chars("\r\n\r"), &gap), 3);
    assert_eq!(position_of(&chars(""), &gap), 0);
    assert_eq!(position_of(&chars("\r\r\n\r\n"), &gap), 1);
}

#[test]
fn index_of_finds_the_first_character() {
    assert_eq!(index_of(&chars("a:b:c"), ':'), 1);
    assert_eq!(index_of(&chars("abc"), ':'), 3);
    assert_eq!(index_of(&chars(""), ':'), 0);
}

#[test]
fn begins_with_compares_the_front() {
    assert!(begins_with(&chars("abc"), &chars("ab")));
    assert!(begins_with(&chars("abc"), &chars("")));
    assert!(!begins_with(&chars("ab"), &chars("abc")));
    assert!(!begins_with(&chars("abc"), &chars("ac")));
}

#[test]
fn split_on_keeps_empty_pieces() {
    assert_eq!(texts(split_on(&chars("a/b//c/"), '/')), vec!["a", "b", "", "c", ""]);
    assert_eq!(texts(split_on(&chars(""), '/')), vec![""]);
    assert_eq!(texts(split_on(&chars("/"), '/')), vec!["", ""]);
    assert_eq!(texts(split_on(&chars("abc"), '/')), vec!["abc"]);
}

#[test]
fn split_on_agrees_with_std() {
    for s in ["", "&", "a&b", "&&a&", "a=1&b=2&&c", "x"] {
        let want: Vec<String> = s.split('&').map(|p| p.to_string()).collect();
        assert_eq!(texts(split_on(&chars(s), '&')), want);
    }
}

#[test]
fn trimming() {
    assert_eq!(to_text(trimmed(&chars("  a b \t\r\n"))), "a b");
    assert_eq!(to_text(trimmed(&chars(" \u{a0}\u{3000} "))), "");
    assert_eq!(to_text(trimmed(&chars(""))), "");
    assert_eq!(to_text(skip_spaces(&chars("  a "))), "a ");
    assert_eq!(to_text(drop_spaces(&chars("  a "))), "  a");
}

#[test]
fn trimming_agrees_with_std() {
    for s in ["", " ", "a", " a", "a ", "\t a\u{2003}b \n", "\u{feff}a"] {
        assert_eq!(to_text(trimmed(&chars(s))), s.trim());
    }
}

#[test]
fn stripping_a_character() {
    assert_eq!(to_text(stripped(&chars("//a/b//"), '/')), "a/b");
    assert_eq!(to_text(stripped(&chars("///"), '/')), "");
    assert_eq!(to_text(stripped(&chars("a"), '/')), "a");
    assert_eq!(to_text(stripped(&chars(""), '/')), "");
}

#[test]
fn words_are_runs_without_white_space() {
    assert_eq!(texts(split_words(&chars("  GET \t /a  HTTP/1.1\r"))), vec!["GET", "/a", "HTTP/1.1"]);
    assert_eq!(texts(split_words(&chars(" \t "))), Vec::<String>::new());
    assert_eq!(texts(split_words(&chars(""))), Vec::<String>::new());
    assert_eq!(texts(split_words(&chars("one"))), vec!["one"]);
    assert_eq!(word_length(&chars("ab cd")), 2);
    assert_eq!(word_length(&chars(" ab")), 0);
}

#[test]
fn words_agree_with_std() {
    for s in ["", " a  b\u{a0}c ", "a\r\nb", "\u{2028}x"] {
        let want: Vec<String> = s.split_whitespace().map(|p| p.to_string()).collect();
        assert_eq!(texts(split_words(&chars(s))), want);
    }
}

#[test]
fn decimal_digits() {
    for d in 0..10usize {
        assert_eq!(digit_char(d), char::from_digit(d as u32, 10).unwrap());
    }
    for n in [0usize, 7, 9, 10, 11, 99, 100, 101, 12345, 1000000, usize::MAX] {
        let mut out = String::from("n=");
        push_decimal(&mut out, n);
        assert_eq!(out, format!("n={}", n));
    }
}

#[test]
fn equality_of_texts() {
    assert!(same_text("", ""));
    assert!(same_text("a\u{e9}", "a\u{e9}"));
    assert!(!same_text("a", "b"));
    assert!(!same_text("a", "ab"));
    assert!(same_chars(&chars("ab"), &chars("ab")));
    assert!(!same_chars(&chars("ab"), &chars("ac")));
    assert!(!same_chars(&chars("ab"), &chars("a")));
    assert!(same_bytes(b"ab", b"ab"));
    assert!(!same_bytes(b"ab", b"ba"));
}
