//! What a run does.

use passhrs::cli::{parse_proxy_jump, parse_ssh_options, Cli, SpecError};
use passhrs::config::ResolvedConfig;
use passhrs::plan::{
    agent_socket, allows_family, bind_interface, check_rsync_paths, errand, fork_args, forward_failed, has_transfers, is_idle,
    jump_endpoint, log_level, parse_forwards, parse_listeners, passphrase_plan, password_plan,
    plan_forwards, pull_transfer, push_transfer, resolve_target, rsync_transfer, run_options,
    session_mode, shows_full_errors, terminal_type, wants_pty, Errand, ForwardFailure, SecretPlan,
    SessionMode, TransferError,
};

fn strings(list: &[&str]) -> Vec<String> {
    list.iter().map(|s| s.to_string()).collect()
}

#[test]
fn the_copy_in_the_background() {
    assert_eq!(
        fork_args(&strings(&["passhrs", "-f", "-N", "--fork", "host"])),
        strings(&["-N", "host"])
    );
    assert!(fork_args(&[]).is_empty());
}

#[test]
fn log_levels() {
    let level = |debug_all: bool, quiet: bool, verbose: u8| {
        log_level(&Cli { debug_all, quiet, verbose, ..Cli::default() })
    };
    assert_eq!(level(false, false, 0), "warn");
    assert_eq!(level(false, false, 1), "info");
    assert_eq!(level(false, false, 2), "debug");
    assert_eq!(level(false, false, 9), "trace");
    assert_eq!(level(false, true, 3), "error");
    assert_eq!(level(true, true, 0), "debug");
    assert!(shows_full_errors(&Cli { verbose: 1, ..Cli::default() }));
    assert!(shows_full_errors(&Cli { debug_all: true, ..Cli::default() }));
    assert!(!shows_full_errors(&Cli::default()));
}

#[test]
fn errands() {
    assert_eq!(errand(&Cli::default()), Errand::Help);
    assert!(is_idle(&Cli { destination: Some(String::new()), ..Cli::default() }));
    let dest = || Cli { destination: Some("h".to_string()), ..Cli::default() };
    assert_eq!(errand(&dest()), Errand::Connect);
    assert_eq!(errand(&Cli { fork: true, ..dest() }), Errand::Fork);
    assert_eq!(errand(&Cli { help: true, ..dest() }), Errand::Help);
    assert_eq!(errand(&Cli { query: strings(&["mac"]), ..Cli::default() }), Errand::Query);
    assert_eq!(
        errand(&Cli { control_command: Some("check".to_string()), ..Cli::default() }),
        Errand::Control
    );
    assert_eq!(errand(&Cli { dynamic_forward: strings(&["1"]), ..Cli::default() }), Errand::Connect);
    assert_eq!(errand(&Cli { http_proxy_connect: strings(&["1"]), ..Cli::default() }), Errand::Help);
}

#[test]
fn secrets() {
    let cli = Cli {
        password: Some("p".to_string()),
        password_file: Some("/f".to_string()),
        passphrase: Some("q".to_string()),
        ..Cli::default()
    };
    assert!(matches!(password_plan(&cli), SecretPlan::File(f) if f == "/f"));
    assert!(matches!(passphrase_plan(&cli), SecretPlan::Value(v) if v == "q"));
    assert!(matches!(password_plan(&Cli::default()), SecretPlan::Absent));
}

#[test]
fn options_of_a_run() {
    let o = run_options(&parse_ssh_options(&[]), &Cli::default(), &ResolvedConfig::default());
    assert!(!o.strict && o.known_hosts.is_none() && o.keepalive_interval.is_none());
    assert!(o.keepalive_max.is_none() && !o.exit_on_forward_failure && !o.gateway_ports);
    assert!(o.bind_address.is_none() && o.inactivity_timeout.is_none());
    let opts = parse_ssh_options(&strings(&[
        "StrictHostKeyChecking=accept-new",
        "UserKnownHostsFile=/k",
        "ServerAliveInterval=15",
        "ServerAliveCountMax=4",
        "TCPKeepAlive=yes",
        "ExitOnForwardFailure=yes",
        "GatewayPorts=yes",
        "BindAddress=10.0.0.1",
    ]));
    let cli = Cli {
        bind_address: Some("10.0.0.2".to_string()),
        inactivity_timeout: 9,
        ..Cli::default()
    };
    let o = run_options(&opts, &cli, &ResolvedConfig::default());
    assert!(o.strict && o.exit_on_forward_failure && o.gateway_ports);
    assert_eq!(o.known_hosts.as_deref(), Some("/k"));
    assert_eq!(o.keepalive_interval, Some(15));
    assert_eq!(o.keepalive_max, Some(4));
    assert_eq!(o.bind_address.as_deref(), Some("10.0.0.1"));
    assert_eq!(o.inactivity_timeout, Some(9));
}

#[test]
fn options_fall_back() {
    let opts = parse_ssh_options(&strings(&["TCPKeepAlive=yes", "ServerAliveInterval=soon"]));
    let cli = Cli { gateway_ports: true, bind_address: Some(String::new()), ..Cli::default() };
    let config = ResolvedConfig {
        strict_host_key_checking: Some(true),
        user_known_hosts_file: Some("/c".to_string()),
        ..ResolvedConfig::default()
    };
    let o = run_options(&opts, &cli, &config);
    assert!(o.strict && o.gateway_ports);
    assert_eq!(o.known_hosts.as_deref(), Some("/c"));
    assert_eq!(o.keepalive_interval, Some(60));
    assert_eq!(o.bind_address, None);
    let opts = parse_ssh_options(&strings(&["StrictHostKeyChecking=no", "GatewayPorts=no"]));
    let o = run_options(&opts, &cli, &config);
    assert!(!o.strict && !o.gateway_ports);
}

#[test]
fn targets() {
    let none = parse_ssh_options(&[]);
    let unset = ResolvedConfig::default();
    let t = resolve_target("u@h:2200", &Cli::default(), &none, &unset).unwrap();
    assert_eq!((t.host.as_str(), t.user.as_str(), t.port), ("h", "u", 2200));
    let t = resolve_target("h", &Cli::default(), &none, &unset).unwrap();
    assert_eq!((t.user.as_str(), t.port), ("root", 22));
    let config = ResolvedConfig {
        hostname: Some("real".to_string()),
        port: Some(2),
        ..ResolvedConfig::default()
    };
    let t = resolve_target("h:9", &Cli::default(), &none, &config).unwrap();
    assert_eq!((t.host.as_str(), t.port), ("real", 2));
    let cli = Cli { ssh_port: 9999, user: Some("l".to_string()), ..Cli::default() };
    let t = resolve_target("u@h:9", &cli, &none, &config).unwrap();
    assert_eq!((t.user.as_str(), t.port), ("l", 9999));
    let opts = parse_ssh_options(&strings(&["Port=7"]));
    assert_eq!(resolve_target("h:9", &cli, &opts, &config).unwrap().port, 7);
    let opts = parse_ssh_options(&strings(&["Port=x"]));
    assert_eq!(resolve_target("h:9", &cli, &opts, &config).unwrap().port, 9999);
    assert!(matches!(
        resolve_target("h:x", &cli, &opts, &config),
        Err(SpecError::DestinationPort)
    ));
    let forward = Cli { local_forward: strings(&["8080:localhost:80"]), ..Cli::default() };
    assert_eq!(errand(&forward), Errand::Connect);
    for dest in ["", "u@", ":22"] {
        let e = resolve_target(dest, &forward, &none, &config).err().unwrap();
        assert_eq!(e.message(dest), "no destination specified");
    }
}

#[test]
fn jumps() {
    let j = parse_proxy_jump("hop:2222").unwrap();
    assert_eq!(jump_endpoint(&j, "me"), ("hop:2222".to_string(), "me".to_string()));
    let j = parse_proxy_jump("you@hop").unwrap();
    assert_eq!(jump_endpoint(&j, "me"), ("hop:22".to_string(), "you".to_string()));
}

#[test]
fn forwards() {
    let l = parse_forwards(&strings(&["1:a:2", "x:3:b:4"]), true).unwrap();
    assert_eq!((l[0].bind_addr.as_str(), l[1].bind_addr.as_str()), ("0.0.0.0", "x"));
    let refused = parse_forwards(&strings(&["1:a:2", " y ", "z"]), true).err().unwrap();
    assert_eq!((refused.spec.as_str(), refused.error), (" y ", SpecError::ForwardShape));
    assert_eq!(refused.error.message(&refused.spec), "invalid forward spec: y");
    assert_eq!(parse_listeners(&strings(&["1080"]), false).unwrap()[0].bind_port, 1080);
    let refused = parse_listeners(&strings(&["1", "q"]), false).err().unwrap();
    assert_eq!((refused.spec.as_str(), refused.error), ("q", SpecError::SocksPort));
    let cli = Cli {
        local_forward: strings(&["1:a:2"]),
        remote_forward: strings(&["3:b:4"]),
        dynamic_forward: strings(&["5"]),
        http_proxy_connect: strings(&["6"]),
        ..Cli::default()
    };
    let p = plan_forwards(&cli, true).ok().unwrap();
    assert_eq!(p.local[0].bind_addr, "0.0.0.0");
    assert_eq!(p.remote[0].bind_addr, "127.0.0.1");
    assert_eq!(p.dynamic[0].bind_addr, "0.0.0.0");
    assert_eq!((p.http[0].bind_addr.as_str(), p.http[0].bind_port), ("0.0.0.0", 6));
    assert_eq!(p.http[0].clone().bind_port, 6);
    let bad = Cli { http_proxy_connect: strings(&["x"]), remote_forward: strings(&["y"]), ..Cli::default() };
    assert_eq!(plan_forwards(&bad, false).err().unwrap().spec, "y");
    assert_eq!(forward_failed(true), ForwardFailure::Abort);
    assert_eq!(forward_failed(false), ForwardFailure::Ignore);
}

#[test]
fn the_agent() {
    let sock = Some("/agent".to_string());
    let with = |a: bool, n: bool| Cli { forward_agent: a, no_forward_agent: n, ..Cli::default() };
    assert_eq!(agent_socket(&with(true, false), &sock).as_deref(), Some("/agent"));
    assert_eq!(agent_socket(&with(true, true), &sock), None);
    assert_eq!(agent_socket(&with(false, false), &sock), None);
    assert_eq!(agent_socket(&with(true, false), &Some(String::new())), None);
    assert_eq!(agent_socket(&with(true, false), &None), None);
}

#[test]
fn transfers() {
    assert_eq!(push_transfer("a\\b:/r").unwrap(), ("a/b".to_string(), "/r".to_string()));
    assert_eq!(pull_transfer("/r:l").unwrap(), ("/r".to_string(), "l".to_string()));
    assert_eq!(push_transfer("x"), Err(TransferError::Spec(SpecError::FileSeparator)));
    assert_eq!(pull_transfer("x"), Err(TransferError::Spec(SpecError::FileSeparator)));
    assert_eq!(rsync_transfer("/a:/b").unwrap(), ("/a".to_string(), "/b".to_string()));
    assert_eq!(rsync_transfer("ab:/b"), Err(TransferError::Relative));
    assert_eq!(rsync_transfer("/a:b"), Err(TransferError::Relative));
    assert_eq!(rsync_transfer("ab"), Err(TransferError::Spec(SpecError::FileSeparator)));
    assert_eq!(
        check_rsync_paths("C:/x".to_string(), "/y".to_string()),
        Ok(("C:/x".to_string(), "/y".to_string()))
    );
    assert!(has_transfers(&Cli { pull: strings(&["a:b"]), ..Cli::default() }));
    assert!(!has_transfers(&Cli::default()));
}

#[test]
fn modes() {
    let push = || Cli { push: strings(&["a:b"]), ..Cli::default() };
    assert_eq!(session_mode(&push()), SessionMode::Finish);
    assert_eq!(session_mode(&Cli { command: strings(&["id"]), ..push() }), SessionMode::Command);
    assert_eq!(session_mode(&Cli { no_command: true, ..push() }), SessionMode::Wait);
    assert_eq!(session_mode(&Cli::default()), SessionMode::Shell);
    let quiet = || Cli { no_command: true, ..Cli::default() };
    assert_eq!(session_mode(&quiet()), SessionMode::Wait);
    assert_eq!(session_mode(&Cli { local_forward: strings(&["1:a:2"]), ..quiet() }), SessionMode::Wait);
    assert_eq!(session_mode(&Cli { dynamic_forward: strings(&["1"]), ..quiet() }), SessionMode::Forwards);
    assert_eq!(
        session_mode(&Cli { http_proxy_connect: strings(&["1"]), ..quiet() }),
        SessionMode::Forwards
    );
    assert_eq!(
        session_mode(&Cli { remote_forward: strings(&["1:a:2"]), ..quiet() }),
        SessionMode::Forwards
    );
    assert_eq!(session_mode(&Cli { command: strings(&["id"]), ..quiet() }), SessionMode::Command);
}

#[test]
fn terminals() {
    let pty = |disable_pty: bool, force_tty: bool, no_command: bool| {
        wants_pty(&Cli { disable_pty, force_tty, no_command, ..Cli::default() })
    };
    assert!(pty(false, false, false));
    assert!(!pty(false, false, true));
    assert!(pty(false, true, true));
    assert!(!pty(true, true, false));
    assert_eq!(terminal_type(&Some("vt100".to_string())), "vt100");
    assert_eq!(terminal_type(&None), "xterm-256color");
}

#[test]
fn the_local_side_of_the_connection() {
    let family = |ipv4: bool, ipv6: bool| Cli { ipv4, ipv6, ..Cli::default() };
    assert!(allows_family(&family(false, false), true) && allows_family(&family(false, false), false));
    assert!(!allows_family(&family(true, false), true) && allows_family(&family(true, false), false));
    assert!(allows_family(&family(false, true), true) && !allows_family(&family(false, true), false));
    assert!(allows_family(&family(true, true), true));
    let on = |s: Option<&str>| Cli { bind_interface: s.map(str::to_string), ..Cli::default() };
    assert_eq!(bind_interface(&on(Some("eth0"))).as_deref(), Some("eth0"));
    assert_eq!(bind_interface(&on(Some(""))), None);
    assert_eq!(bind_interface(&on(None)), None);
}
