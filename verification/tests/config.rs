//! Settings from configuration files.

use passhrs::cli::Cli;
use passhrs::config::{
    apply_resolved, config_reader, config_source, expand_glob, host_list, reader_of, resolve_config, select_entries,
    ConfigError, ConfigSource, ConfigText, DirEntry, GlobError, ParseFailure, ResolveError,
    ResolvedConfig,
};
use passhrs::includes::{
    expand_include_tokens, preprocess_includes, split_lines, FileFact, Files, IncludeStop, Listing,
    Location, Reader, Request,
};

/// A file system in memory: absolute paths and contents.
type Tree<'a> = &'a [(&'a str, &'a str)];

fn parent(path: &str) -> Option<String> {
    path.rfind('/').map(|i| path[..i].to_string())
}

fn supply(tree: Tree, files: &mut Files, request: Request) -> Result<(), GlobError> {
    match request {
        Request::Locate(base, pattern) => {
            let path =
                if pattern.starts_with('/') { pattern.clone() } else { format!("{base}/{pattern}") };
            files.locations.push(Location { base, pattern, path });
        }
        Request::List(path) => {
            let dir = parent(&path).unwrap_or_default();
            let name = path[dir.len() + 1..].to_string();
            let entries: Vec<DirEntry> = tree
                .iter()
                .filter(|(p, _)| parent(p).as_deref() == Some(dir.as_str()))
                .map(|(p, _)| DirEntry {
                    name: p[dir.len() + 1..].to_string(),
                    path: p.to_string(),
                })
                .collect();
            let found = expand_glob(&name, &entries)?;
            files.listings.push(Listing { path, files: found });
        }
        Request::Read(path) => {
            let contents =
                tree.iter().find(|(p, _)| *p == path).map(|(_, text)| text.to_string());
            let dir = parent(&path);
            files.files.push(FileFact { canonical: path.clone(), path, dir, contents });
        }
    }
    Ok(())
}

fn no_files() -> Files {
    Files { locations: vec![], listings: vec![], files: vec![] }
}

/// Resolves the configuration at `main` for a host.
fn resolve_in(tree: Tree, main: &str, host: &str) -> Result<ResolvedConfig, ResolveError> {
    let cli = Cli { config_file: Some(main.to_string()), ..Cli::default() };
    let home = Some("/home/me".to_string());
    let text = match tree.iter().find(|(p, _)| *p == main) {
        Some((_, t)) => ConfigText::Text(t.to_string(), parent(main).unwrap()),
        None => ConfigText::Unreadable,
    };
    let reader = config_reader(host, &home);
    let mut files = no_files();
    loop {
        match resolve_config(&cli, &files, &reader, &text) {
            Err(ResolveError::Config(ConfigError::Include(IncludeStop::Need(request)))) => {
                supply(tree, &mut files, request).expect("glob");
            }
            other => return other,
        }
    }
}

fn resolve_with(fixture: &str, host: &str) -> ResolvedConfig {
    resolve_in(&[("/etc/fixture", fixture)], "/etc/fixture", host).expect("resolve")
}

fn stop_of(r: Result<ResolvedConfig, ResolveError>) -> IncludeStop {
    match r {
        Err(ResolveError::Config(ConfigError::Include(stop))) => stop,
        other => panic!("unexpected: {:?}", other),
    }
}

#[test]
fn parses_hostname_user_port_identity_proxy_jump() {
    let cfg = resolve_with(
        r#"
Host test-host
  Hostname real-server.example.com
  User alice
  Port 2222
  IdentityFile ~/.ssh/test_key
  ProxyJump bastion@hop.internal
"#,
        "test-host",
    );
    assert_eq!(cfg.hostname.as_deref(), Some("real-server.example.com"));
    assert_eq!(cfg.user.as_deref(), Some("alice"));
    assert_eq!(cfg.port, Some(2222));
    let id = cfg.identity_file.first().expect("identity_file must be resolved");
    assert!(
        id.ends_with(".ssh/test_key") || id.ends_with(".ssh\\test_key"),
        "expected path to end with .ssh/test_key, got: {}",
        id
    );
    assert_eq!(cfg.proxy_jump.as_deref(), Some("bastion@hop.internal"));
}

#[test]
fn glob_pattern_matches_subdomain() {
    let cfg = resolve_with("\nHost *.internal\n  User admin\n", "db.internal");
    assert_eq!(cfg.user.as_deref(), Some("admin"));
}

#[test]
fn negated_pattern_excludes_match() {
    let fixture = "\nHost *.internal !staging.internal\n  User ops\n";
    let cfg_match = resolve_with(fixture, "db.internal");
    assert_eq!(cfg_match.user.as_deref(), Some("ops"));
    let cfg_excluded = resolve_with(fixture, "staging.internal");
    assert_eq!(cfg_excluded.user, None, "negation must exclude staging.internal");
}

#[test]
fn cli_user_wins_over_config_user() {
    let resolved = resolve_with("\nHost test-host\n  User alice\n", "test-host");
    let mut cli = Cli { user: Some("carol".to_string()), ..Cli::default() };
    assert_eq!(resolved.user.as_deref(), Some("alice"));
    apply_resolved(&mut cli, &resolved);
    assert_eq!(cli.user.as_deref(), Some("carol"));
}

#[test]
fn cli_identity_file_wins_over_config_identity_file() {
    let resolved = resolve_with("\nHost test-host\n  IdentityFile /tmp/key_a\n", "test-host");
    let mut cli = Cli { identity_file: vec!["/tmp/key_b".to_string()], ..Cli::default() };
    apply_resolved(&mut cli, &resolved);
    assert_eq!(cli.identity_file.first().cloned(), Some("/tmp/key_b".to_string()));
}

#[test]
fn identity_file_chain_cli_then_config_in_order() {
    let resolved = resolve_with(
        "\nHost chain-host\n  IdentityFile /tmp/key_c\n  IdentityFile /tmp/key_d\n",
        "chain-host",
    );
    let mut cli = Cli {
        identity_file: vec!["/tmp/key_a".to_string(), "/tmp/key_b".to_string()],
        ..Cli::default()
    };
    apply_resolved(&mut cli, &resolved);
    assert_eq!(
        cli.identity_file,
        vec![
            "/tmp/key_a".to_string(),
            "/tmp/key_b".to_string(),
            "/tmp/key_c".to_string(),
            "/tmp/key_d".to_string(),
        ]
    );
}

#[test]
fn identity_file_chain_config_alone_preserves_order() {
    let resolved = resolve_with(
        r#"
Host chain-host
  IdentityFile /tmp/key_first
  IdentityFile /tmp/key_second
  IdentityFile /tmp/key_third
"#,
        "chain-host",
    );
    let mut cli = Cli::default();
    apply_resolved(&mut cli, &resolved);
    assert_eq!(
        cli.identity_file,
        vec![
            "/tmp/key_first".to_string(),
            "/tmp/key_second".to_string(),
            "/tmp/key_third".to_string(),
        ]
    );
}

#[test]
fn identity_file_chain_empty_when_neither_cli_nor_config() {
    let mut cli = Cli { destination: Some("bare-host".to_string()), ..Cli::default() };
    let reader = config_reader("bare-host", &None);
    let resolved = resolve_config(&cli, &no_files(), &reader, &ConfigText::Absent).unwrap();
    apply_resolved(&mut cli, &resolved);
    assert!(cli.identity_file.is_empty());
    assert!(resolved.identity_file.is_empty());
}

#[test]
fn config_fills_unset_cli_field() {
    let mut cli = Cli::default();
    assert!(cli.user.is_none());
    let resolved = resolve_with("\nHost test-host\n  User alice\n", "test-host");
    apply_resolved(&mut cli, &resolved);
    assert_eq!(cli.user.as_deref(), Some("alice"));
}

#[test]
fn dev_null_short_circuits() {
    let cli = Cli { config_file: Some("/dev/null".to_string()), ..Cli::default() };
    assert!(matches!(config_source(&cli, &Some("/home/me".to_string())), ConfigSource::Nothing));
    let reader = config_reader("test-host", &None);
    let resolved = resolve_config(&cli, &no_files(), &reader, &ConfigText::Absent)
        .expect("/dev/null must not error");
    assert!(resolved.hostname.is_none());
    assert!(resolved.user.is_none());
    assert!(resolved.port.is_none());
    assert!(resolved.identity_file.is_empty());
    assert!(resolved.proxy_jump.is_none());
}

#[test]
fn missing_explicit_file_is_error() {
    let res = resolve_in(&[], "/tmp/passhrs-no-such-config-XYZ123", "test-host");
    assert!(res.is_err(), "missing -F file must error, got: {:?}", res);
    assert!(matches!(res, Err(ResolveError::Missing)));
}

#[test]
fn directives_outside_host_block_is_error() {
    let res = resolve_in(&[("/etc/f", "Hostname foo.com\n")], "/etc/f", "test-host");
    assert!(res.is_err(), "directives outside Host block must error");
    assert!(matches!(
        res,
        Err(ResolveError::Config(ConfigError::Parse(ParseFailure::HostNotFound)))
    ));
}

#[test]
fn unknown_keywords_are_silently_ignored() {
    let cfg = resolve_with(
        r#"
Host test-host
  ForwardX11 yes
  Compression yes
  Hostname real-host
  User bob
"#,
        "test-host",
    );
    assert_eq!(cfg.user.as_deref(), Some("bob"));
    assert_eq!(cfg.hostname.as_deref(), Some("real-host"));
}

#[test]
fn empty_config_file_is_default_resolved_config() {
    let resolved = resolve_with("\n\n   \n# only comments\n\n", "any-host");
    assert!(resolved.hostname.is_none());
    assert!(resolved.user.is_none());
    assert!(resolved.port.is_none());
}

#[test]
fn include_at_top_level_pulls_in_host_block() {
    let tree = [
        ("/etc/main", "Include /etc/d/extra.conf\n"),
        (
            "/etc/d/extra.conf",
            "Host pulled-in\n  HostName pulled.example.com\n  User frominclude\n",
        ),
    ];
    let resolved = resolve_in(&tree, "/etc/main", "pulled-in").expect("include must succeed");
    assert_eq!(resolved.hostname.as_deref(), Some("pulled.example.com"));
    assert_eq!(resolved.user.as_deref(), Some("frominclude"));
}

#[test]
fn include_expands_glob_against_containing_dir() {
    let tree = [
        ("/c/inc-b.conf", "Host beta\n  User beta-user\n"),
        ("/c/inc-a.conf", "Host alpha\n  User alpha-user\n"),
        ("/c/ignored.txt", "Host ignored\n  User ignored\n"),
        ("/c/main", "Include inc-*.conf\n"),
    ];
    let r1 = resolve_in(&tree, "/c/main", "alpha").unwrap();
    assert_eq!(r1.user.as_deref(), Some("alpha-user"));
    let r2 = resolve_in(&tree, "/c/main", "beta").unwrap();
    assert_eq!(r2.user.as_deref(), Some("beta-user"));
    let r3 = resolve_in(&tree, "/c/main", "ignored").unwrap();
    assert_eq!(r3.user, None);
}

#[test]
fn include_cycle_is_detected() {
    let tree = [("/c/a.conf", "Include /c/b.conf\n"), ("/c/b.conf", "Include /c/a.conf\n")];
    assert!(matches!(stop_of(resolve_in(&tree, "/c/a.conf", "any")), IncludeStop::Cycle(_)));
}

#[test]
fn include_inside_host_block_is_error() {
    let tree = [
        ("/c/extra.conf", "Host x\n  User x\n"),
        ("/c/main.conf", "Host foo\n  Include extra.conf\n"),
    ];
    match stop_of(resolve_in(&tree, "/c/main.conf", "foo")) {
        IncludeStop::AfterBlock(line) => assert_eq!(line, "  Include extra.conf"),
        other => panic!("expected block-boundary error, got: {:?}", other),
    }
}

#[test]
fn include_with_no_matches_is_error() {
    let tree = [("/c/main.conf", "Include *.does-not-exist\n")];
    match stop_of(resolve_in(&tree, "/c/main.conf", "any")) {
        IncludeStop::NoMatch(path) => assert_eq!(path, "/c/*.does-not-exist"),
        other => panic!("unexpected: {:?}", other),
    }
}

#[test]
fn stops_are_explained() {
    let line = || "  Include x".to_string();
    assert_eq!(IncludeStop::TooDeep.message(), "Include nesting exceeds 16 levels");
    assert_eq!(
        IncludeStop::MissingPattern(line()).message(),
        "Include directive missing pattern:   Include x"
    );
    assert_eq!(
        IncludeStop::AfterBlock(line()).message(),
        "Include directive not allowed after Host/Match block:   Include x"
    );
    assert_eq!(IncludeStop::NoMatch("/p".to_string()).message(), "Include: no files matched pattern /p");
    assert_eq!(IncludeStop::Cycle("/p".to_string()).message(), "Include cycle detected: /p");
    assert_eq!(IncludeStop::Unreadable("/p".to_string()).message(), "Include: failed to read /p");
}

#[test]
fn include_missing_file_is_error() {
    let gone = "/tmp/passhrs-definitely-not-a-real-config-XYZ.conf";
    let main = format!("Include {gone}\n");
    match stop_of(resolve_in(&[("/c/main", &main)], "/c/main", "any")) {
        IncludeStop::Unreadable(path) => assert_eq!(path, gone),
        other => panic!("unexpected: {:?}", other),
    }
}

#[test]
fn include_with_no_pattern_is_error() {
    for main in ["Include\n", "Include   \n", "  include\t\n"] {
        let stop = stop_of(resolve_in(&[("/c/main", main)], "/c/main", "any"));
        assert!(matches!(stop, IncludeStop::MissingPattern(_)), "got: {:?}", stop);
    }
}

#[test]
fn include_percent_h_expands_to_target_host() {
    let tree = [
        ("/c/myspecialhost.conf", "Host myspecialhost\n  User h-expansion\n"),
        ("/c/main.conf", "Include %h.conf\n"),
    ];
    let resolved = resolve_in(&tree, "/c/main.conf", "myspecialhost").unwrap();
    assert_eq!(resolved.user.as_deref(), Some("h-expansion"));
}

#[test]
fn include_tilde_expands_to_home() {
    let tree = [
        ("/home/me/inc.conf", "Host tilde-host\n  User tilde-user\n"),
        ("/c/main", "Include ~/inc.conf\n"),
    ];
    let resolved = resolve_in(&tree, "/c/main", "tilde-host").expect("tilde include must succeed");
    assert_eq!(resolved.user.as_deref(), Some("tilde-user"));
}

#[test]
fn include_nested_layers_all_apply() {
    let tree = [
        ("/c/b.conf", "Host fromb\n  User from-b\n"),
        ("/c/a.conf", "Include b.conf\nHost froma\n  User from-a\n"),
        ("/c/main.conf", "Include /c/a.conf\n"),
    ];
    let ra = resolve_in(&tree, "/c/main.conf", "froma").unwrap();
    assert_eq!(ra.user.as_deref(), Some("from-a"));
    let rb = resolve_in(&tree, "/c/main.conf", "fromb").unwrap();
    assert_eq!(rb.user.as_deref(), Some("from-b"));
}

#[test]
fn include_unknown_percent_tokens_pass_through() {
    let tree = [("/c/main.conf", "Include %r.conf\n")];
    match stop_of(resolve_in(&tree, "/c/main.conf", "any")) {
        IncludeStop::Unreadable(path) => assert_eq!(path, "/c/%r.conf"),
        other => panic!("unknown percent token should pass through, got: {:?}", other),
    }
}

#[test]
fn nesting_has_a_limit() {
    let chain = |n: usize| -> Vec<(String, String)> {
        (0..n)
            .map(|i| (format!("/c/f{i}"), format!("Include f{}\n", i + 1)))
            .chain([(format!("/c/f{n}"), "# end\n".to_string())])
            .collect()
    };
    let run = |n: usize| {
        let owned = chain(n);
        let tree: Vec<(&str, &str)> =
            owned.iter().map(|(p, t)| (p.as_str(), t.as_str())).collect();
        resolve_in(&tree, "/c/f0", "any")
    };
    assert!(run(16).is_ok());
    assert!(matches!(stop_of(run(17)), IncludeStop::TooDeep));
}

#[test]
fn merged_text_keeps_lines_in_place() {
    let reader = Reader { host: "h".to_string(), home: None, user: "u".to_string() };
    let mut files = no_files();
    let tree = [("/c/x", "X 1\r\nX 2"), ("/c/y", "")];
    let main = "# top\nInclude x\n\nA 1\nINCLUDE y\nHost b\n";
    let merged = loop {
        let mut seen = Vec::new();
        match preprocess_includes(&files, &reader, main, "/c", &mut seen, 0) {
            Err(IncludeStop::Need(r)) => supply(&tree, &mut files, r).unwrap(),
            Ok(text) => {
                assert_eq!(seen, vec!["/c/x".to_string(), "/c/y".to_string()]);
                break text;
            }
            Err(e) => panic!("{:?}", e),
        }
    };
    assert_eq!(merged, "# top\nX 1\nX 2\n\nA 1\nHost b\n");
}

#[test]
fn the_same_file_twice_is_refused() {
    let tree = [("/c/main", "Include x\nInclude x\n"), ("/c/x", "# x\n")];
    assert!(matches!(stop_of(resolve_in(&tree, "/c/main", "any")), IncludeStop::Cycle(p) if p == "/c/x"));
}

#[test]
fn tokens() {
    let home = Some("/h".to_string());
    let f = |p: &str| expand_include_tokens(p, "host", &home, "user");
    assert_eq!(f("%d/%u/%h"), "/h/user/host");
    assert_eq!(f("%%d %r %"), "%%d %r %");
    assert_eq!(expand_include_tokens("%d/x", "host", &None, "user"), "/x");
}

#[test]
fn lines_of_a_text() {
    assert_eq!(split_lines("a\r\nb\n\nc\r"), vec!["a", "b", "", "c\r"]);
    assert!(split_lines("").is_empty());
    assert_eq!(split_lines("\n"), vec![""]);
}

fn entries(names: &[&str]) -> Vec<DirEntry> {
    names
        .iter()
        .map(|n| DirEntry { name: n.to_string(), path: format!("/d/{n}") })
        .collect()
}

#[test]
fn globs_select_and_sort() {
    let dir = entries(&["b.conf", "a.conf", "ab.conf", "a.txt", "A.conf"]);
    assert_eq!(
        expand_glob("*.conf", &dir).unwrap(),
        vec!["/d/A.conf", "/d/a.conf", "/d/ab.conf", "/d/b.conf"]
    );
    assert_eq!(expand_glob("?.conf", &dir).unwrap(), vec!["/d/A.conf", "/d/a.conf", "/d/b.conf"]);
    assert_eq!(expand_glob("[ab].conf", &dir).unwrap(), vec!["/d/a.conf", "/d/b.conf"]);
    assert!(expand_glob("*.none", &dir).unwrap().is_empty());
    assert_eq!(expand_glob("[a", &dir), Err(GlobError::Invalid));
    assert_eq!(expand_glob("[a", &vec![]), Err(GlobError::Invalid));
    assert_eq!(expand_glob(&nested_glob(82), &dir), Err(GlobError::TooComplex));
    assert_eq!(expand_glob(&"{".repeat(81), &dir), Err(GlobError::Invalid));
    assert_eq!(expand_glob(&"}".repeat(82), &dir), Err(GlobError::Invalid));
    let odd = entries(&["a\\b.conf", "a.conf"]);
    assert_eq!(expand_glob("a.*", &odd).unwrap(), vec!["/d/a.conf"]);
    assert_eq!(expand_glob("[a", &odd), Err(GlobError::Invalid));
    assert_eq!(select_entries(&entries(&["z", "y", "x"]), &vec![true, false, true]), vec!["/d/x", "/d/z"]);
}

/// Alternatives within alternatives, each beside other text.
fn nested_glob(depth: usize) -> String {
    format!("{}{{a,**/c}}{}", "{a,b".repeat(depth - 1), "}".repeat(depth - 1))
}

#[test]
fn deep_globs_compile() {
    let row = "a".repeat(100);
    let dir = entries(&["a.conf", "bbc", "x", &row]);
    let plain = format!("{}a{}.conf", "{".repeat(81), "}".repeat(81));
    assert_eq!(expand_glob(&plain, &dir).unwrap(), vec!["/d/a.conf"]);
    assert!(expand_glob(&nested_glob(81), &dir).unwrap().is_empty());
    assert_eq!(expand_glob(&nested_glob(3), &dir).unwrap(), vec!["/d/bbc"]);
    assert_eq!(expand_glob(&"{a,b}".repeat(100), &dir).unwrap(), vec![format!("/d/{row}")]);
    let class = format!("[{}a].conf", "{".repeat(2000));
    assert_eq!(expand_glob(&class, &dir).unwrap(), vec!["/d/a.conf"]);
    let bracket = format!("[]{}a].conf", "{".repeat(2000));
    assert_eq!(expand_glob(&bracket, &dir).unwrap(), vec!["/d/a.conf"]);
    let negated = format!("[!]{}b].conf", "{".repeat(2000));
    assert_eq!(expand_glob(&negated, &dir).unwrap(), vec!["/d/a.conf"]);
}

#[test]
fn braces_without_contents_compile() {
    let dir = entries(&["a.conf"]);
    let nested = |n: usize| format!("a{}{}.*", "{".repeat(n), "}".repeat(n));
    assert_eq!(expand_glob(&nested(300), &dir).unwrap(), vec!["/d/a.conf"]);
    assert_eq!(expand_glob(&nested(1000), &dir).unwrap(), vec!["/d/a.conf"]);
    assert_eq!(expand_glob(&nested(1001), &dir), Err(GlobError::TooComplex));
    let flat = format!("a{}.*", "{}".repeat(5000));
    assert_eq!(expand_glob(&flat, &dir).unwrap(), vec!["/d/a.conf"]);
}

#[test]
fn long_globs_compile() {
    let dir = entries(&["a.conf", "x"]);
    assert!(expand_glob(&format!("{}*", "a".repeat(70000)), &dir).unwrap().is_empty());
    assert!(expand_glob(&"a".repeat(300000), &dir).unwrap().is_empty());
    assert!(expand_glob(&"?".repeat(65537), &dir).unwrap().is_empty());
    assert!(expand_glob(&format!("\\x{}", "{a}".repeat(1001)), &dir).unwrap().is_empty());
}

#[test]
fn too_large_globs_are_refused() {
    let dir = entries(&["x"]);
    let long = "a".repeat(400000);
    for pattern in [
        long.clone(),
        format!("{long}*"),
        format!("*{long}"),
        format!("*.{long}"),
        format!("**/{long}"),
        format!("**/[b]{long}"),
        format!("{long}/**"),
        format!("**/{long}/**"),
        format!("x?{long}.c"),
    ] {
        assert_eq!(expand_glob(&pattern, &dir), Err(GlobError::TooComplex));
    }
    let faces = format!("{{{},{}}}", "\u{1f600}".repeat(32766), "\u{1f601}".repeat(32766));
    assert_eq!(expand_glob(&faces, &dir), Err(GlobError::TooComplex));
}

#[test]
fn stars_at_both_ends_match() {
    let dir = entries(&["a.conf", "b", "x."]);
    assert_eq!(expand_glob("**", &dir).unwrap().len(), 3);
    assert_eq!(expand_glob("**a**", &dir).unwrap(), vec!["/d/a.conf"]);
    assert_eq!(expand_glob("b**", &dir).unwrap(), vec!["/d/b"]);
    assert_eq!(expand_glob("**/b", &dir).unwrap(), vec!["/d/b"]);
    assert_eq!(expand_glob("*.", &dir).unwrap(), vec!["/d/x."]);
}

#[test]
fn sources_of_configuration() {
    let home = Some("/home/me".to_string());
    let cli = Cli::default();
    assert!(matches!(config_source(&cli, &home), ConfigSource::Home(h) if h == "/home/me"));
    assert!(matches!(config_source(&cli, &None), ConfigSource::Nothing));
    let cli = Cli { config_file: Some("/x".to_string()), ..Cli::default() };
    assert!(matches!(config_source(&cli, &home), ConfigSource::Explicit(p) if p == "/x"));
    let reader = config_reader("h", &home);
    assert_eq!(reader.host, "h");
    let plain = Cli::default();
    let r = resolve_config(&plain, &no_files(), &reader, &ConfigText::Unreadable).unwrap();
    assert!(r.user.is_none());
}

#[test]
fn local_user_fills_its_token() {
    let reader = config_reader("h", &None);
    let name = whoami::username().unwrap_or_default();
    assert_eq!(reader.user, name);
}

#[test]
fn crowded_patterns_are_refused() {
    for pattern in [nested_glob(82), "a".repeat(400000)] {
        let text = format!("Host a\n\tHOST x\n host  b\t!{pattern} c\n");
        assert!(matches!(
            resolve_in(&[("/c/main", &text)], "/c/main", "h"),
            Err(ResolveError::Config(ConfigError::TooComplex))
        ));
    }
}

#[test]
fn other_lines_may_be_crowded() {
    let deep = nested_glob(100);
    let long = "x".repeat(70000);
    let braces = "{a}".repeat(100);
    let words = "a ".repeat(40000);
    let text = format!(
        "# Host {deep}\n# {long}\nHost {braces} {words} h\n  User me\n  ProxyCommand {deep} {long}\n  \
         HostKeyAlias {deep}\n"
    );
    let cfg = resolve_in(&[("/c/main", &text)], "/c/main", "h").unwrap();
    assert_eq!(cfg.user.as_deref(), Some("me"));
}

#[test]
fn strictness_and_known_hosts_come_from_the_file() {
    let cfg = resolve_with(
        "Host h\n  StrictHostKeyChecking yes\n  UserKnownHostsFile /k/hosts\n",
        "h",
    );
    assert_eq!(cfg.strict_host_key_checking, Some(true));
    assert_eq!(cfg.user_known_hosts_file.as_deref(), Some("/k/hosts"));
}

#[test]
fn stops_before_any_file_remember_nothing() {
    let reader = Reader { host: "h".to_string(), home: None, user: "u".to_string() };
    let files = no_files();
    for (content, depth) in [("Host foo\n  Include extra.conf\n", 0), ("Include\n", 0), ("", 17)] {
        let mut seen = Vec::new();
        assert!(preprocess_includes(&files, &reader, content, "/c", &mut seen, depth).is_err());
        assert!(seen.is_empty());
    }
    let mut seen = Vec::new();
    assert_eq!(preprocess_includes(&files, &reader, "", "/c", &mut seen, 16).unwrap(), "");
    assert!(seen.is_empty());
}

#[test]
fn an_unreadable_file_is_remembered() {
    let reader = Reader { host: "h".to_string(), home: None, user: "u".to_string() };
    let mut files = no_files();
    loop {
        let mut seen = Vec::new();
        match preprocess_includes(&files, &reader, "Include x\n", "/c", &mut seen, 0) {
            Err(IncludeStop::Need(r)) => {
                assert!(seen.is_empty());
                supply(&[], &mut files, r).unwrap();
            }
            Err(IncludeStop::Unreadable(p)) => {
                assert_eq!(p, "/c/x");
                assert_eq!(seen, vec!["/c/x".to_string()]);
                break;
            }
            other => panic!("{:?}", other),
        }
    }
}

#[test]
fn backslashes_in_paths_are_kept() {
    let cfg = resolve_with(
        "# C:\\x\nHost h\n  User me\n  IdentityFile C:\\keys\\id\nHost a\\*\n  User other\n",
        "h",
    );
    assert_eq!(cfg.user.as_deref(), Some("me"));
    assert_eq!(cfg.identity_file, vec!["C:\\keys\\id".to_string()]);
}

#[test]
fn invalid_patterns_match_no_host() {
    let cfg = resolve_with("Host [a {x\n  User me\nHost h\n  User you\n", "h");
    assert_eq!(cfg.user.as_deref(), Some("you"));
}

#[test]
fn host_patterns_are_found() {
    let text = "# Host x\nHost a  !b\tc\n\thOST !\nHostname y\nHost\tz\nUser Host\n";
    assert_eq!(host_list(text), vec!["a", "b", "c", ""]);
}

#[test]
fn readers_without_a_user() {
    let home = Some("/home/me".to_string());
    let reader = reader_of("h", &home, None);
    assert_eq!((reader.host.as_str(), reader.user.as_str()), ("h", ""));
    assert_eq!(reader.home, home);
    assert_eq!(reader_of("h", &None, Some("me".to_string())).user, "me");
}
