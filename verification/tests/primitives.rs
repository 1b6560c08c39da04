//! Text, numbers and the input of a session.

use passhrs::escape::{escape_help, EscapeFilter, InputAction, InputState};
use passhrs::number::{parse_number, parse_u16, parse_u8, push_decimal};
use passhrs::text::{
    bytes_of, chars_of, clone_list, clone_opt, concatenate, contains, ends_with, is_whitespace, join,
    same_text, split_all, split_first, split_last, split_words, starts_with, string_of, to_ascii_lower, trim,
    trim_end_matches, trim_start_matches,
};

fn chars(s: &str) -> Vec<char> {
    chars_of(s)
}

#[test]
fn white_space_is_that_of_unicode() {
    for n in 0..=0x10ffffu32 {
        if let Some(c) = char::from_u32(n) {
            assert_eq!(is_whitespace(c), c.is_whitespace(), "{n:x}");
        }
    }
}

#[test]
fn texts() {
    let s = chars("a:b:c");
    assert_eq!(split_first(&s, ':'), Some((&['a'][..], &['b', ':', 'c'][..])));
    assert_eq!(split_last(&s, ':'), Some((&['a', ':', 'b'][..], &['c'][..])));
    assert_eq!(split_first(&s, '!'), None);
    let parts: Vec<String> = split_all(&chars("a..b"), '.').iter().map(|p| string_of(p)).collect();
    assert_eq!(parts, vec!["a", "", "b"]);
    assert_eq!(string_of(trim(&chars("\u{3000} x y\t"))), "x y");
    assert_eq!(string_of(trim_start_matches(&chars("::x:"), ':')), "x:");
    assert_eq!(string_of(trim_end_matches(&chars("::x:"), ':')), "::x");
    assert!(contains(&chars("abc"), &chars("bc")) && contains(&chars("abc"), &[]));
    assert!(!contains(&chars("abc"), &chars("cb")) && !contains(&[], &chars("a")));
    assert!(starts_with(&chars("abc"), &chars("ab")) && ends_with(&chars("abc"), &chars("bc")));
    assert!(!starts_with(&chars("a"), &chars("ab")) && !ends_with(&chars("abc"), &chars("ab")));
    assert_eq!(string_of(&to_ascii_lower(&chars("AbZ\u{c4}"))), "abz\u{c4}");
    assert!(same_text("a", "a") && !same_text("a", "b"));
    assert_eq!(concatenate("a", "b"), "ab");
    assert_eq!(bytes_of("\u{e9}"), vec![0xc3, 0xa9]);
    let list = vec!["a".to_string(), "b".to_string(), "c".to_string()];
    assert_eq!(join(&list, ", "), "a, b, c");
    assert_eq!(join(&[], ", "), "");
    assert_eq!(clone_list(&list), list);
    assert_eq!(clone_opt(&Some("x".to_string())), Some("x".to_string()));
}

#[test]
fn numbers_are_read_as_std_reads_them() {
    for s in ["", "0", "+0", "-0", "00080", "+65535", "65535", "65536", "+", "++1", "1+", "12a", " 1", "99999999999999999999"] {
        assert_eq!(parse_u16(&chars(s)), s.parse::<u16>().ok(), "{s:?}");
        assert_eq!(parse_u8(&chars(s)), s.parse::<u8>().ok(), "{s:?}");
        assert_eq!(parse_number(&chars(s), u64::MAX), s.parse::<u64>().ok(), "{s:?}");
    }
    assert_eq!(parse_number(&chars("18446744073709551615"), u64::MAX), Some(u64::MAX));
    assert_eq!(parse_number(&chars("18446744073709551616"), u64::MAX), None);
}

#[test]
fn numbers_are_written() {
    for n in [0, 9, 10, 255, 65535, u64::MAX] {
        let mut s = String::new();
        push_decimal(&mut s, n);
        assert_eq!(s, n.to_string());
        assert_eq!(parse_number(&chars(&s), u64::MAX), Some(n));
    }
}

fn feed(f: &mut EscapeFilter, input: &[u8]) -> (Vec<u8>, String) {
    let (mut sent, mut marks) = (Vec::new(), String::new());
    for b in input {
        match f.step(*b) {
            InputAction::Send(bytes) => sent.extend(bytes),
            InputAction::Hold => marks.push('h'),
            InputAction::Disconnect => marks.push('d'),
            InputAction::Help => marks.push('?'),
        }
    }
    (sent, marks)
}

#[test]
fn escape_sequences() {
    let tilde = || EscapeFilter::new(Some(b'~'), true, true);
    assert_eq!(feed(&mut tilde(), b"ls\r~."), (b"ls\r".to_vec(), "hd".to_string()));
    assert_eq!(feed(&mut tilde(), b"~?x"), (b"x".to_vec(), "h?".to_string()));
    assert_eq!(feed(&mut tilde(), b"a~."), (b"a~.".to_vec(), String::new()));
    assert_eq!(feed(&mut tilde(), b"~~\n~x"), (b"~\n~x".to_vec(), "hh".to_string()));
    let mut off = EscapeFilter::new(None, true, true);
    assert_eq!(feed(&mut off, b"~.\n~?"), (b"~.\n~?".to_vec(), String::new()));
    let mut no_pty = EscapeFilter::new(Some(b'~'), false, true);
    assert_eq!(feed(&mut no_pty, b"~."), (b"~.".to_vec(), String::new()));
    let mut piped = EscapeFilter::new(Some(b'~'), true, false);
    assert_eq!(feed(&mut piped, b"~."), (b"~.".to_vec(), String::new()));
    assert_eq!(tilde().state, InputState::LineStart);
    let help = escape_help();
    assert!(help.starts_with("Supported escape sequences:\r\n") && help.contains("  .  terminate"));
}

#[test]
fn words_of_a_text() {
    assert_eq!(split_words(&chars(" a  bc\td\u{c}\r\ne\u{a0}f ")), vec!["a", "bc", "d", "e\u{a0}f"]);
    assert!(split_words(&chars(" \t")).is_empty());
}
