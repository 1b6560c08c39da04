//! The command line for the remote shell.

use passhrs::exec::{
    build_exec_env_prefix, exec_command_line, exec_env_bindings, exec_payload, is_ident_cont,
    is_ident_start, rewrite_dollar_refs_for_cmd,
};


#[test]
fn dollar_rewrite_substitutes_known_names() {
    let out = rewrite_dollar_refs_for_cmd(
        "echo $FOO and $BAR_BAZ then $UNRELATED",
        &["FOO".into(), "BAR_BAZ".into()],
    );
    assert_eq!(out, "echo %FOO% and %BAR_BAZ% then $UNRELATED");
}

#[test]
fn dollar_rewrite_passthrough_when_no_env_names() {
    let out = rewrite_dollar_refs_for_cmd("echo $HOME stays as-is", &[]);
    assert_eq!(out, "echo $HOME stays as-is");
}

#[test]
fn dollar_rewrite_handles_alphanumeric_and_underscore() {
    let out = rewrite_dollar_refs_for_cmd(
        "x=$FOO123 y=$_UNDERSCORE",
        &["FOO123".into(), "_UNDERSCORE".into()],
    );
    assert_eq!(out, "x=%FOO123% y=%_UNDERSCORE%");
}

#[test]
fn dollar_rewrite_preserves_unknown_dollar_vars() {
    let out = rewrite_dollar_refs_for_cmd("$1 ${X} $UNKNOWN", &["KNOWN".into()]);
    assert_eq!(out, "$1 ${X} $UNKNOWN");
}

#[test]
fn dollar_rewrite_does_not_match_dollar_at_eof() {
    let out = rewrite_dollar_refs_for_cmd("price: 5$", &["X".into()]);
    assert_eq!(out, "price: 5$");
}

#[test]
fn ident_start_accepts_alpha_and_underscore_only() {
    assert!(is_ident_start(b'a'));
    assert!(is_ident_start(b'Z'));
    assert!(is_ident_start(b'_'));
    assert!(!is_ident_start(b'1'));
    assert!(!is_ident_start(b'$'));
}

#[test]
fn ident_cont_accepts_alphanumeric_and_underscore() {
    assert!(is_ident_cont(b'a'));
    assert!(is_ident_cont(b'Z'));
    assert!(is_ident_cont(b'0'));
    assert!(is_ident_cont(b'9'));
    assert!(is_ident_cont(b'_'));
    assert!(!is_ident_cont(b'$'));
    assert!(!is_ident_cont(b' '));
    assert!(!is_ident_cont(b';'));
}

#[test]
fn dollar_rewrite_handles_adjacent_refs() {
    let out = rewrite_dollar_refs_for_cmd("$A$B", &["A".into(), "B".into()]);
    assert_eq!(out, "%A%%B%");
}

#[test]
fn prefix_sh_uses_semicolon_separator() {
    let parts = vec![
        r#"export FOO=bar"#.to_string(),
        r#"export BAZ=qux"#.to_string(),
    ];
    let p = build_exec_env_prefix(&parts, "sh");
    assert_eq!(p, r#"export FOO=bar; export BAZ=qux; "#);
}

#[test]
fn prefix_cmd_uses_ampersand_separator() {
    let parts = vec![r#"set "PHR_TEST_VAR=hello_from_env""#.to_string()];
    let p = build_exec_env_prefix(&parts, "cmd");
    assert_eq!(p, r#"set "PHR_TEST_VAR=hello_from_env" & "#);
}

#[test]
fn prefix_cmd_multi_part_ampersand_join() {
    let parts = vec![r#"set "A=1""#.to_string(), r#"set "B=2""#.to_string()];
    let p = build_exec_env_prefix(&parts, "cmd");
    assert_eq!(p, r#"set "A=1" & set "B=2" & "#);
}

#[test]
fn prefix_empty_parts_returns_empty_string() {
    let p = build_exec_env_prefix(&[], "sh");
    assert_eq!(p, "");
    let p = build_exec_env_prefix(&[], "cmd");
    assert_eq!(p, "");
}

fn strings(list: &[&str]) -> Vec<String> {
    list.iter().map(|s| s.to_string()).collect()
}

#[test]
fn rewriting_keeps_text_beyond_ascii() {
    let names = strings(&["FOO", "X"]);
    assert_eq!(rewrite_dollar_refs_for_cmd("echo \u{e9} $FOO", &names), "echo \u{e9} %FOO%");
    assert_eq!(rewrite_dollar_refs_for_cmd("\u{4e2d}$X\u{e9}", &names), "\u{4e2d}%X%\u{e9}");
    assert_eq!(rewrite_dollar_refs_for_cmd("\u{e9}$X", &[]), "\u{e9}$X");
    assert_eq!(rewrite_dollar_refs_for_cmd("$$X", &names), "$%X%");
    assert_eq!(rewrite_dollar_refs_for_cmd("$XY $\u{e9}", &names), "$XY $\u{e9}");
}

#[test]
fn bindings_from_specs_and_environment() {
    let env = vec![("HOME".to_string(), "/root".to_string()), ("A".to_string(), "1".to_string())];
    let b = exec_env_bindings(&strings(&["A", "B=x=y", "MISSING", "C="]), &env);
    let shown: Vec<(&str, &str)> = b.iter().map(|e| (e.name.as_str(), e.value.as_str())).collect();
    assert_eq!(shown, vec![("A", "1"), ("B", "x=y"), ("C", "")]);
}

#[test]
fn payload_for_sh() {
    let p = exec_payload("sh", &strings(&["echo", "$A"]), &strings(&["A"]), &strings(&["'1 2'"]));
    assert_eq!(p, "export A='1 2'; echo $A");
}

#[test]
fn payload_for_cmd_is_nested() {
    let p = exec_payload("cmd", &strings(&["echo", "\"$A\""]), &strings(&["A"]), &strings(&["1"]));
    assert_eq!(p, "set \"A=1\" & cmd /c \"echo \\\"%A%\\\"\"");
    assert_eq!(exec_payload("cmd", &strings(&["dir", "\"x\""]), &[], &[]), "dir \"x\"");
}

#[test]
fn command_line_quotes_values() {
    let line = exec_command_line(
        "sh",
        &strings(&["env"]),
        &strings(&["A=it's", "B=plain", "C=", "D=x!y"]),
        &vec![],
    );
    assert_eq!(line, "export A='it'\\''s'; export B=plain; export C=''; export D='x'\\!'y'; env");
}
