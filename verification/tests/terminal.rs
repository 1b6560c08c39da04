//! Plain text from what a terminal shows.

use passhrs::text::{chars_of, string_of};

/// The text without the escape sequences of a terminal.
fn strip_ansi(s: &str) -> String {
    let mut out = String::with_capacity(s.len());
    let mut chars = s.chars().peekable();
    while let Some(c) = chars.next() {
        if c != '\u{1b}' {
            out.push(c);
            continue;
        }
        match chars.next() {
            Some('[') => {
                while let Some(&nc) = chars.peek() {
                    chars.next();
                    if ('\u{40}'..='\u{7e}').contains(&nc) {
                        break;
                    }
                }
            }
            Some(']') | Some('P') | Some('^') | Some('_') => {
                while let Some(nc) = chars.next() {
                    if nc == '\u{07}' {
                        break;
                    }
                    if nc == '\u{1b}' && chars.next() == Some('\\') {
                        break;
                    }
                }
            }
            Some('=') | Some('>') | Some('}') => {
            }
            _ => {
            }
        }
    }
    out
}

#[test]
fn passes_through_plain_text() {
    assert_eq!(strip_ansi("hello world"), "hello world");
    assert_eq!(strip_ansi("hello_phr\n"), "hello_phr\n");
    assert_eq!(strip_ansi(""), "");
}

#[test]
fn strips_csi_sequences() {
    assert_eq!(
        strip_ansi("\x1b[2J\x1b[m\x1b[Hhello_phr\r\n"),
        "hello_phr\r\n"
    );
    assert_eq!(strip_ansi("\x1b[?25lsecret\x1b[?25h"), "secret");
    assert_eq!(strip_ansi("\x1b[31mred\x1b[0m"), "red");
    assert_eq!(strip_ansi("\x1b[10;20Hrow=10"), "row=10");
}

#[test]
fn strips_osc_sequences() {
    assert_eq!(
        strip_ansi("hello\x1b]0;C:\\Windows\\system32\\conhost.exe\x07end"),
        "helloend",
    );
    assert_eq!(strip_ansi("a\x1b]2;title\x1b\\b"), "ab");
}

#[test]
fn strips_windows_conhost_payload() {
    let raw = "\x1b[2J\x1b[m\x1b[Hhello_phr\r\n\x1b]0;C:\\Windows\\system32\\conhost.exe\x07\x1b[?25h";
    assert_eq!(strip_ansi(raw), "hello_phr\r\n");
}

#[test]
fn preserves_non_escape_text() {
    let s = "中文测试 🎉";
    assert_eq!(strip_ansi(s), s);
    assert_eq!(strip_ansi("http://x?y=1"), "http://x?y=1");
}

#[test]
fn handles_truncated_escape() {
    assert_eq!(strip_ansi("abc\x1b"), "abc");
    assert_eq!(strip_ansi("abc\x1b["), "abc");
    assert_eq!(strip_ansi("abc\x1bZx"), "abcx");
}

#[test]
fn stripped_text_survives_the_way_through_characters() {
    let plain = strip_ansi("\x1b[31mgr\u{fc}n\x1b[0m");
    assert_eq!(string_of(&chars_of(&plain)), "gr\u{fc}n");
}
