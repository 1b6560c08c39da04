//! Errors in one line.

use passhrs::report::{classify, format_user_error, topic_line, ErrorTopic};

#[test]
fn classifies_authentication_failure() {
    let chain = vec!["Authentication failed".to_string()];
    let s = format_user_error(&chain);
    assert!(
        s.starts_with("passhrs: authentication failed"),
        "expected 'error: authentication failed' prefix, got: {s}"
    );
}

#[test]
fn classifies_permission_denied_as_auth() {
    let chain = vec!["Permission denied (publickey,password)".to_string()];
    let s = format_user_error(&chain);
    assert!(
        s.starts_with("passhrs: authentication failed"),
        "expected auth classification, got: {s}"
    );
}

#[test]
fn classifies_connection_refused() {
    let chain = vec!["Connection refused".to_string(), "Failed to connect to SSH server".to_string()];
    let s = format_user_error(&chain);
    assert!(
        s.starts_with("passhrs: connection failed"),
        "expected connection classification, got: {s}"
    );
}

#[test]
fn classifies_connection_timed_out() {
    let chain = vec!["Connection timed out after 3s".to_string()];
    let s = format_user_error(&chain);
    assert!(
        s.starts_with("passhrs: connection failed"),
        "expected connection classification, got: {s}"
    );
}

#[test]
fn classifies_host_key_mismatch() {
    let chain = vec!["Host key verification failed".to_string()];
    let s = format_user_error(&chain);
    assert!(
        s.starts_with("passhrs: host key verification failed"),
        "expected host key classification, got: {s}"
    );
}

#[test]
fn classifies_proxyjump() {
    let chain = vec!["ProxyJump: failed to establish SSH session to jump host".to_string()];
    let s = format_user_error(&chain);
    assert!(
        s.starts_with("passhrs: ProxyJump failed"),
        "expected ProxyJump classification, got: {s}"
    );
}

#[test]
fn classifies_forwarding_or_sftp_failure() {
    let chain = vec!["SFTP subsystem initialization failed".to_string()];
    let s = format_user_error(&chain);
    assert!(
        s.starts_with("passhrs: forwarding/sftp failed"),
        "expected forwarding classification, got: {s}"
    );
}

#[test]
fn unknown_error_falls_back_to_summary_with_hint() {
    let chain = vec!["something completely unrelated to ssh".to_string()];
    let s = format_user_error(&chain);
    assert!(
        s.starts_with("passhrs: "),
        "unknown errors must still get the 'error: ' prefix, got: {s}"
    );
    assert!(
        s.contains("rerun with -vv"),
        "unknown errors must hint at -vv, got: {s}"
    );
}

#[test]
fn topics_in_order() {
    assert_eq!(classify("auth failed over sftp"), ErrorTopic::Authentication);
    assert_eq!(classify("known_hosts: permission"), ErrorTopic::HostKey);
    assert_eq!(classify("dns"), ErrorTopic::Connection);
    assert_eq!(classify("channel open refused"), ErrorTopic::Forwarding);
    assert_eq!(classify("proxy jump"), ErrorTopic::ProxyJump);
    assert_eq!(classify("nothing of the kind"), ErrorTopic::Unknown);
}

#[test]
fn inner_messages_decide_and_the_outer_is_shown() {
    let chain = vec!["Cannot go on".to_string(), "NETWORK IS UNREACHABLE".to_string()];
    assert_eq!(format_user_error(&chain), "passhrs: connection failed (Cannot go on)");
    let chain = vec!["Odd".to_string()];
    assert_eq!(format_user_error(&chain), "passhrs: Odd (rerun with -vv for details)");
    assert_eq!(topic_line(ErrorTopic::ProxyJump, &chain), "passhrs: ProxyJump failed (Odd)");
}
