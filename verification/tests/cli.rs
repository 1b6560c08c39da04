//! Command-line values.

use passhrs::cli::{
    effective_escape_char, help_lines, parse_destination, parse_dynamic_spec, parse_escape_char,
    parse_forward_spec, parse_proxy_jump, parse_ssh_options, Cli, EscapeError, SpecError,
};
use passhrs::paths::{expand_path, parse_file_spec};

#[test]
fn plain_port_host_port() {
    let f = parse_forward_spec("9090:localhost:90", false).unwrap();
    assert_eq!(f.bind_addr, "127.0.0.1");
    assert_eq!(f.bind_port, 9090);
    assert_eq!(f.target_host, "localhost");
    assert_eq!(f.target_port, 90);
}

#[test]
fn regression_target_host_not_polluted_by_bind_port() {
    let f = parse_forward_spec("34567:localhost:22222", false).unwrap();
    assert_eq!(f.bind_port, 34567);
    assert_eq!(f.target_host, "localhost");
    assert_eq!(f.target_port, 22222);
}

#[test]
fn plain_bind_address() {
    let f = parse_forward_spec("0.0.0.0:8080:localhost:80", false).unwrap();
    assert_eq!(f.bind_addr, "0.0.0.0");
    assert_eq!(f.bind_port, 8080);
    assert_eq!(f.target_host, "localhost");
    assert_eq!(f.target_port, 80);
}

#[test]
fn bracketed_ipv6_bind_address() {
    let f = parse_forward_spec("[::1]:8080:localhost:80", false).unwrap();
    assert_eq!(f.bind_addr, "::1");
    assert_eq!(f.bind_port, 8080);
    assert_eq!(f.target_host, "localhost");
    assert_eq!(f.target_port, 80);
}

#[test]
fn bracketed_ipv6_target_host() {
    let f = parse_forward_spec("9090:[::1]:80", false).unwrap();
    assert_eq!(f.bind_addr, "127.0.0.1");
    assert_eq!(f.bind_port, 9090);
    assert_eq!(f.target_host, "::1");
    assert_eq!(f.target_port, 80);
}

#[test]
fn invalid_specs_error() {
    assert!(parse_forward_spec("9090:localhost", false).is_err());
    assert!(parse_forward_spec("9090:localhost:notaport", false).is_err());
}

#[test]
fn gateway_ports_default_wildcard_when_no_explicit_bind() {
    let f = parse_forward_spec("8118:localhost:80", true).unwrap();
    assert_eq!(
        f.bind_addr, "0.0.0.0",
        "gateway_ports=true must default to 0.0.0.0"
    );
    assert_eq!(f.bind_port, 8118);
}

#[test]
fn gateway_ports_explicit_bind_wins() {
    let f = parse_forward_spec("192.168.1.5:8118:localhost:80", true).unwrap();
    assert_eq!(
        f.bind_addr, "192.168.1.5",
        "explicit bind must survive gateway_ports=true"
    );
}

#[test]
fn gateway_ports_explicit_bracketed_ipv6_wins() {
    let f = parse_forward_spec("[::1]:8118:localhost:80", true).unwrap();
    assert_eq!(
        f.bind_addr, "::1",
        "explicit bracketed IPv6 bind must survive"
    );
}

#[test]
fn no_gateway_ports_default_loopback() {
    let f = parse_forward_spec("8118:localhost:80", false).unwrap();
    assert_eq!(f.bind_addr, "127.0.0.1");
}

#[test]
fn dynamic_gateway_ports_default_wildcard_when_bare_port() {
    let d = parse_dynamic_spec("1080", true).unwrap();
    assert_eq!(d.bind_addr, "0.0.0.0");
    assert_eq!(d.bind_port, 1080);
}

#[test]
fn dynamic_no_gateway_ports_default_loopback_when_bare_port() {
    let d = parse_dynamic_spec("1080", false).unwrap();
    assert_eq!(d.bind_addr, "127.0.0.1");
    assert_eq!(d.bind_port, 1080);
}

#[test]
fn dynamic_explicit_bind_wins_regardless_of_gateway_ports() {
    let d = parse_dynamic_spec("0.0.0.0:1080", true).unwrap();
    assert_eq!(d.bind_addr, "0.0.0.0");
    let d = parse_dynamic_spec("127.0.0.1:1080", true).unwrap();
    assert_eq!(d.bind_addr, "127.0.0.1");
}

#[test]
fn none_disables() {
    assert_eq!(parse_escape_char("none").unwrap(), None);
    assert_eq!(parse_escape_char("NONE").unwrap(), None);
    assert_eq!(parse_escape_char("None").unwrap(), None);
}

#[test]
fn single_literal_char() {
    assert_eq!(parse_escape_char("~").unwrap(), Some(b'~'));
    assert_eq!(parse_escape_char("?").unwrap(), Some(b'?'));
    assert_eq!(parse_escape_char("#").unwrap(), Some(b'#'));
}

#[test]
fn caret_ctrl_a_through_z() {
    assert_eq!(parse_escape_char("^a").unwrap(), Some(0x01));
    assert_eq!(parse_escape_char("^z").unwrap(), Some(0x1a));
}

#[test]
fn caret_uppercase_letters() {
    assert_eq!(parse_escape_char("^A").unwrap(), Some(0x01));
    assert_eq!(parse_escape_char("^Z").unwrap(), Some(0x1a));
}

#[test]
fn caret_question_mark_is_del() {
    assert_eq!(parse_escape_char("^?").unwrap(), Some(0x7f));
}

#[test]
fn caret_double_caret_is_literal() {
    assert_eq!(parse_escape_char("^^").unwrap(), Some(b'^'));
}

#[test]
fn empty_string_is_error() {
    assert!(parse_escape_char("").is_err());
    assert!(parse_escape_char("   ").is_err());
}

#[test]
fn multi_byte_is_error() {
    assert!(parse_escape_char("ab").is_err());
}

#[test]
fn caret_with_no_following_char_is_error() {
    assert!(parse_escape_char("^").is_err());
}

#[test]
fn caret_with_multi_char_following_is_error() {
    assert!(parse_escape_char("^ab").is_err());
}

#[test]
fn caret_with_unsupported_char_is_error() {
    assert!(parse_escape_char("^1").is_err());
}

#[test]
fn drive_letter_backslash_split() {
    let (l, r) = parse_file_spec(r"C:\Users\foo:/remote/bar").unwrap();
    assert_eq!(l, "C:/Users/foo");
    assert_eq!(r, "/remote/bar");
}

#[test]
fn drive_letter_forward_slash_split() {
    let (l, r) = parse_file_spec("C:/Users/foo:/remote/bar").unwrap();
    assert_eq!(l, "C:/Users/foo");
    assert_eq!(r, "/remote/bar");
}

#[test]
fn drive_letter_lowercase() {
    let (l, r) = parse_file_spec(r"c:\users\foo:/remote/bar").unwrap();
    assert_eq!(l, "c:/users/foo");
    assert_eq!(r, "/remote/bar");
}

#[test]
fn unc_backslash_split() {
    let (l, r) = parse_file_spec(r"\\server\share\file:/remote/bar").unwrap();
    assert_eq!(l, "//server/share/file");
    assert_eq!(r, "/remote/bar");
}

#[test]
fn unc_forward_slash_split() {
    let (l, r) = parse_file_spec("//server/share/file:/remote/bar").unwrap();
    assert_eq!(l, "//server/share/file");
    assert_eq!(r, "/remote/bar");
}

#[test]
fn ntfs_stream_first_post_drive_colon_wins() {
    let (l, r) = parse_file_spec(r"C:\file:stream:/remote/bar").unwrap();
    assert_eq!(l, "C:/file");
    assert_eq!(r, "stream:/remote/bar");
}

#[test]
fn drive_relative_falls_through_naively() {
    let (l, r) = parse_file_spec("C:foo").unwrap();
    assert_eq!(l, "C");
    assert_eq!(r, "foo");
}

#[test]
fn unix_paths_unchanged() {
    let (l, r) = parse_file_spec("/local/path:/remote/path").unwrap();
    assert_eq!(l, "/local/path");
    assert_eq!(r, "/remote/path");
}

#[test]
fn unix_relative_local_unchanged() {
    let (l, r) = parse_file_spec("relative/file:/remote").unwrap();
    assert_eq!(l, "relative/file");
    assert_eq!(r, "/remote");
}

#[test]
fn tilde_user_split_regression() {
    let (l, r) = parse_file_spec("~user@host:/path:/extra").unwrap();
    assert_eq!(l, "~user@host");
    assert_eq!(r, "/path:/extra");
}

#[test]
fn no_colon_is_error() {
    assert!(parse_file_spec("nodivider").is_err());
}

#[test]
fn drive_letter_with_no_remote_colon_is_error() {
    assert!(parse_file_spec(r"C:\foo").is_err());
}

#[test]
fn empty_remote_preserved() {
    let (l, r) = parse_file_spec("/local/foo:").unwrap();
    assert_eq!(l, "/local/foo");
    assert_eq!(r, "");
}

#[test]
fn expand_path_unix_unchanged() {
    let p = expand_path("~/file");
    assert!(p.starts_with('/'), "expected absolute path, got {:?}", p);
    assert!(p.ends_with("/file"), "expected trailing /file, got {:?}", p);
    assert!(!p.contains('\\'), "backslash leaked: {}", p);
}

fn strings(list: &[&str]) -> Vec<String> {
    list.iter().map(|s| s.to_string()).collect()
}

#[test]
fn destination_forms() {
    assert_eq!(
        parse_destination("alice@example.com:2222").unwrap(),
        ("example.com".to_string(), Some("alice".to_string()), 2222)
    );
    assert_eq!(parse_destination("example.com").unwrap(), ("example.com".to_string(), None, 22));
    assert_eq!(
        parse_destination("a@b@host").unwrap(),
        ("host".to_string(), Some("a@b".to_string()), 22)
    );
    assert_eq!(
        parse_destination("root@[fe80::1]:2200").unwrap(),
        ("fe80::1".to_string(), Some("root".to_string()), 2200)
    );
    assert_eq!(parse_destination("[::1]").unwrap(), ("::1".to_string(), None, 22));
    assert_eq!(parse_destination("[::1]::23").unwrap(), ("::1".to_string(), None, 23));
    assert_eq!(parse_destination("host:+80").unwrap(), ("host".to_string(), None, 80));
    assert_eq!(parse_destination("").unwrap(), (String::new(), None, 22));
}

#[test]
fn destination_errors() {
    assert_eq!(parse_destination("host:port"), Err(SpecError::DestinationPort));
    assert_eq!(parse_destination("host:65536"), Err(SpecError::DestinationPort));
    assert_eq!(parse_destination("host:"), Err(SpecError::DestinationPort));
    assert_eq!(parse_destination("host:-1"), Err(SpecError::DestinationPort));
    assert_eq!(parse_destination("[::1"), Err(SpecError::DestinationBracket));
    assert_eq!(parse_destination("[::1]:x"), Err(SpecError::DestinationPort));
}

#[test]
fn proxy_jump_forms() {
    let j = parse_proxy_jump(" bastion@hop.internal:2222 ").unwrap();
    assert_eq!(j.user.as_deref(), Some("bastion"));
    assert_eq!(j.host, "hop.internal");
    assert_eq!(j.port, 2222);
    let j = parse_proxy_jump("[::1]:23").unwrap();
    assert_eq!((j.user, j.host.as_str(), j.port), (None, "::1", 23));
    let j = parse_proxy_jump("hop").unwrap();
    assert_eq!((j.host.as_str(), j.port), ("hop", 22));
    assert!(matches!(parse_proxy_jump("hop:x"), Err(SpecError::JumpPort)));
}

#[test]
fn forward_errors() {
    let err = |s: &str| parse_forward_spec(s, false).map(|_| ()).unwrap_err();
    assert_eq!(err("[::1:80:h:1"), SpecError::ForwardBindBracket);
    assert_eq!(err("nothing"), SpecError::ForwardShape);
    assert_eq!(err("8080"), SpecError::ForwardTarget);
    assert_eq!(err("8080:host"), SpecError::ForwardTarget);
    assert_eq!(err("bind:port:host:80"), SpecError::ForwardBindPort);
    assert_eq!(err("8080:[::1:80"), SpecError::ForwardTargetBracket);
    assert_eq!(err("8080:host:http"), SpecError::ForwardTargetPort);
}

#[test]
fn dynamic_port_error() {
    assert!(matches!(parse_dynamic_spec("x", false), Err(SpecError::SocksPort)));
    assert!(matches!(parse_dynamic_spec("1.2.3.4:99999", true), Err(SpecError::SocksPort)));
}

#[test]
fn options_are_keyed_without_case_and_the_last_wins() {
    let m = parse_ssh_options(&strings(&["Port=1", "noequals", "PORT=2", "User=a=b", "X="]));
    assert_eq!(m.get("port").map(String::as_str), Some("2"));
    assert_eq!(m.get("user").map(String::as_str), Some("a=b"));
    assert_eq!(m.get("x").map(String::as_str), Some(""));
    assert!(m.get("Port").is_none());
    assert_eq!(m.len(), 3);
}

#[test]
fn option_keys_fold_beyond_ascii() {
    let m = parse_ssh_options(&strings(&["\u{c4}B=1"]));
    assert_eq!(m.get("\u{e4}b").map(String::as_str), Some("1"));
}

#[test]
fn escape_errors() {
    assert_eq!(parse_escape_char(" "), Err(EscapeError::Empty));
    assert_eq!(parse_escape_char("^"), Err(EscapeError::CaretLength));
    assert_eq!(parse_escape_char("^\u{e9}"), Err(EscapeError::CaretLength));
    assert_eq!(parse_escape_char("^1"), Err(EscapeError::CaretUnknown));
    assert_eq!(parse_escape_char("\u{e9}"), Err(EscapeError::NotOneByte));
    assert_eq!(parse_escape_char("\u{3000}~\u{a0}"), Ok(Some(b'~')));
}

#[test]
fn escape_in_force() {
    let with = |s: Option<&str>| Cli { escape_char: s.map(str::to_string), ..Cli::default() };
    assert_eq!(effective_escape_char(&with(None)), Some(b'~'));
    assert_eq!(effective_escape_char(&with(Some("none"))), None);
    assert_eq!(effective_escape_char(&with(Some("^a"))), Some(1));
    assert_eq!(effective_escape_char(&with(Some("ab"))), Some(b'~'));
}

#[test]
fn help_names_every_option() {
    let text = help_lines().join("\n");
    for option in [
        "-4", "-6", "-A", "-a", "-b", "-c", "-m", "-C", "-D", "-H", "-E", "-Q", "-f", "-g", "-i", "-J",
        "-L", "-l", "-N", "-n", "-o", "-O", "-p", "-q", "-R", "-S", "-T", "-t", "-v", "-V", "-y",
        "--connect-timeout", "--exec-env", "--identity-passphrase", "--password", "--timeout",
        "--push", "--pull", "--rsync",
    ] {
        assert!(text.contains(option), "help text lacks {option}");
    }
    assert!(text.starts_with("passhrs - SSH automation tool"));
    assert_eq!(help_lines().len(), 48);
}

#[test]
fn default_command_line() {
    let cli = Cli::default();
    assert_eq!(cli.ssh_port, 22);
    assert_eq!(cli.shell, "sh");
    assert!(cli.identity_file.is_empty() && cli.user.is_none() && !cli.no_command);
}

#[test]
fn messages() {
    assert_eq!(SpecError::DestinationPort.message("h:x"), "invalid port in destination: h:x");
    assert_eq!(SpecError::DestinationBracket.message("[h"), "unclosed bracket in destination: [h");
    assert_eq!(SpecError::JumpPort.message("h:x"), "Invalid port in proxy jump");
    assert_eq!(SpecError::ForwardBindBracket.message(" [h"), "unclosed bracket in forward spec: [h");
    assert_eq!(
        SpecError::ForwardTarget.message("80"),
        "invalid forward spec: 80. Use port:host:port or [bind:]port:host:port"
    );
    assert_eq!(SpecError::ForwardBindPort.message("b:x:h:1"), "invalid bind port in forward spec: b:x:h:1");
    assert_eq!(
        SpecError::ForwardTargetBracket.message("1:[h"),
        "unclosed bracket for target host in forward spec: 1:[h"
    );
    assert_eq!(SpecError::ForwardTargetPort.message("1:h:x"), "invalid target port in forward spec: 1:h:x");
    assert_eq!(SpecError::SocksPort.message("x"), "invalid SOCKS port");
    assert_eq!(SpecError::FileSeparator.message("x"), "invalid file spec: x, expected local:remote");
}
