//! Listing and choosing algorithms.

use passhrs::query::{answer_query, choose_ciphers, choose_macs, dispatch};

#[test]
fn dispatch_help_exits_zero() {
    let rc = dispatch(&["help".to_string()]).code;
    assert_eq!(rc, 0, "help query must exit 0");
}

#[test]
fn dispatch_unknown_returns_one() {
    let rc = dispatch(&["not-a-real-query".to_string()]).code;
    assert_eq!(rc, 1, "unknown query must exit 1");
}

#[test]
fn dispatch_mixed_keeps_zero_when_all_known() {
    let rc = dispatch(&["cipher".to_string(), "mac".to_string()]).code;
    assert_eq!(rc, 0);
}

#[test]
fn dispatch_mixed_returns_one_when_any_unknown() {
    let rc = dispatch(&["cipher".to_string(), "bogus".to_string()]).code;
    assert_eq!(rc, 1);
}

#[test]
fn all_cipher_names_are_non_empty() {
    for n in russh::cipher::ALL_CIPHERS {
        let s: &str = n.as_ref();
        assert!(!s.is_empty(), "cipher name {:?} empty", n);
    }
    let named: Vec<String> =
        russh::cipher::ALL_CIPHERS.iter().map(|n| n.as_ref().to_string()).collect();
    assert_eq!(answer_query("cipher").unwrap(), named);
}

#[test]
fn lists_are_as_stated() {
    assert_eq!(
        answer_query("CIPHER").unwrap(),
        vec![
            "clear",
            "none",
            "aes128-ctr",
            "aes192-ctr",
            "aes256-ctr",
            "aes128-gcm@openssh.com",
            "aes256-gcm@openssh.com",
            "aes128-cbc",
            "aes192-cbc",
            "aes256-cbc",
            "chacha20-poly1305@openssh.com",
        ]
    );
    assert_eq!(
        answer_query("mac").unwrap(),
        vec![
            "none",
            "hmac-sha1",
            "hmac-sha2-256",
            "hmac-sha2-512",
            "hmac-sha1-etm@openssh.com",
            "hmac-sha2-256-etm@openssh.com",
            "hmac-sha2-512-etm@openssh.com",
        ]
    );
    assert_eq!(
        answer_query("kex").unwrap(),
        vec![
            "mlkem768x25519-sha256",
            "curve25519-sha256",
            "curve25519-sha256@libssh.org",
            "diffie-hellman-group-exchange-sha1",
            "diffie-hellman-group-exchange-sha256",
            "diffie-hellman-group1-sha1",
            "diffie-hellman-group14-sha1",
            "diffie-hellman-group14-sha256",
            "diffie-hellman-group15-sha512",
            "diffie-hellman-group16-sha512",
            "diffie-hellman-group17-sha512",
            "diffie-hellman-group18-sha512",
            "ecdh-sha2-nistp256",
            "ecdh-sha2-nistp384",
            "ecdh-sha2-nistp521",
            "none",
        ]
    );
    assert_eq!(answer_query("compression").unwrap(), vec!["none", "zlib", "zlib@openssh.com"]);
    assert_eq!(
        answer_query("Key").unwrap(),
        vec![
            "ssh-dss",
            "ecdsa-sha2-nistp256",
            "ecdsa-sha2-nistp384",
            "ecdsa-sha2-nistp521",
            "ssh-ed25519",
            "ssh-rsa",
            "rsa-sha2-256",
            "rsa-sha2-512",
            "sk-ecdsa-sha2-nistp256@openssh.com",
            "sk-ssh-ed25519@openssh.com",
        ]
    );
    assert_eq!(answer_query("help").unwrap().len(), 7);
}

#[test]
fn complaints() {
    let r = dispatch(&["Key-Cert".to_string(), "BOGUS".to_string(), "compression".to_string()]);
    assert_eq!(r.code, 1);
    assert_eq!(
        r.complaints,
        vec![
            "Unsupported query: Key-Cert (not applicable to a client). Try `-Q help`",
            "Unsupported query: bogus. Valid queries: cipher, mac, kex, compression, key, help",
        ]
    );
    assert_eq!(r.lines, vec!["none", "zlib", "zlib@openssh.com"]);
    for what in ["protocol-version", "key-plain", "key-sig", "sig"] {
        assert!(answer_query(what).unwrap_err().contains("not applicable"));
    }
    let none = dispatch(&[]);
    assert!(none.code == 0 && none.lines.is_empty() && none.complaints.is_empty());
}

#[test]
fn algorithms_are_chosen_by_name() {
    let list = |l: &[&str]| l.iter().map(|s| s.to_string()).collect::<Vec<String>>();
    assert_eq!(choose_ciphers(&[]), Ok(vec![]));
    let wanted = list(&["aes256-ctr", "chacha20-poly1305@openssh.com"]);
    assert_eq!(choose_ciphers(&wanted), Ok(wanted.clone()));
    assert_eq!(
        choose_ciphers(&list(&["aes256-ctr", "rot13", "x"])),
        Err("rot13".to_string())
    );
    assert_eq!(choose_macs(&list(&["hmac-sha1"])), Ok(list(&["hmac-sha1"])));
    assert_eq!(choose_macs(&list(&["aes256-ctr"])), Err("aes256-ctr".to_string()));
}
