//! Host keys, authentication, exit codes and the locale.

use passhrs::relay::{
    channel_to_socket, local_tunnel, proxy_tunnel, socket_to_channel, ChannelEvent, SocketRead,
    ToChannel, ToSocket,
};
use passhrs::ssh::{
    agent_pipe_name, endpoint_text, forwarded_target, remote_forward_map, sent_env_names,
    should_forward_locale_env, should_send_env, AuthPlan,
    AuthStage, ExitStatuses, HostKeyPolicy, KeyHash, KnownHosts, ReaderPhase, SessionOutput,
    SessionReader,
};
use passhrs::types::ForwardSpec;

#[test]
fn forwards_lang_and_language() {
    assert!(should_forward_locale_env("LANG"));
    assert!(should_forward_locale_env("LANGUAGE"));
}

#[test]
fn forwards_all_lc_variants() {
    assert!(should_forward_locale_env("LC_ALL"));
    assert!(should_forward_locale_env("LC_CTYPE"));
    assert!(should_forward_locale_env("LC_MESSAGES"));
    assert!(should_forward_locale_env("LC_TIME"));
    assert!(should_forward_locale_env("LC_SOMETHING_NEW"));
}

#[test]
fn does_not_forward_unrelated_env() {
    assert!(!should_forward_locale_env("PATH"));
    assert!(!should_forward_locale_env("HOME"));
    assert!(!should_forward_locale_env("TERM"));
    assert!(!should_forward_locale_env("SSH_AUTH_SOCK"));
    assert!(!should_forward_locale_env("MYLANG"));
    assert!(!should_forward_locale_env("XLC_FOO"));
    assert!(!should_forward_locale_env("LANGUAGES"));
}

fn policy(accept_all: bool, strict: bool, path: Option<&str>) -> HostKeyPolicy {
    HostKeyPolicy { accept_all, strict, known_hosts_path: path.map(str::to_string) }
}

#[test]
fn known_hosts_file_to_consult() {
    assert_eq!(policy(false, true, Some("/k")).lookup_path(), Some("/k"));
    assert_eq!(policy(false, true, Some("/dev/null")).lookup_path(), None);
    assert_eq!(policy(false, true, Some("nul")).lookup_path(), None);
    assert_eq!(policy(true, true, Some("/k")).lookup_path(), None);
    assert_eq!(policy(false, false, None).lookup_path(), None);
}

#[test]
fn keys_are_judged() {
    let strict = policy(false, true, Some("/k"));
    assert!(strict.check_server_key(Some(KnownHosts::Match)));
    assert!(!strict.check_server_key(Some(KnownHosts::NoMatch)));
    assert!(!strict.check_server_key(Some(KnownHosts::Failed)));
    assert!(!strict.check_server_key(None));
    let lenient = policy(false, false, Some("/k"));
    assert!(lenient.check_server_key(Some(KnownHosts::NoMatch)));
    assert!(lenient.check_server_key(Some(KnownHosts::Failed)));
    assert!(!lenient.check_server_key(Some(KnownHosts::Changed)));
    assert!(lenient.should_record(Some(KnownHosts::NoMatch)));
    assert!(!lenient.should_record(Some(KnownHosts::Match)));
    assert!(!strict.should_record(Some(KnownHosts::NoMatch)));
    let all = policy(true, true, Some("/k"));
    assert!(all.check_server_key(None));
    assert!(all.check_server_key(Some(KnownHosts::Changed)));
    assert!(!all.should_record(Some(KnownHosts::NoMatch)));
}

fn spec(bind_port: u16, host: &str, target_port: u16) -> ForwardSpec {
    ForwardSpec {
        bind_addr: "127.0.0.1".to_string(),
        bind_port,
        target_host: host.to_string(),
        target_port,
    }
}

#[test]
fn remote_forwards_by_port() {
    let map = remote_forward_map(&vec![spec(80, "a", 1), spec(81, "b", 2), spec(80, "c", 3)]);
    assert_eq!(forwarded_target(&map, 80).as_deref(), Some("c:3"));
    assert_eq!(forwarded_target(&map, 81).as_deref(), Some("b:2"));
    assert_eq!(forwarded_target(&map, 0x1_0000 + 81).as_deref(), Some("b:2"));
    assert_eq!(forwarded_target(&map, 82), None);
    assert_eq!(endpoint_text("::1", 65535), "::1:65535");
    let copy = spec(7, "x", 8).clone();
    assert_eq!((copy.bind_port, copy.target_host.as_str()), (7, "x"));
}

#[test]
fn offers_in_order() {
    let plan = AuthPlan { keys: 2, password: true };
    let mut made = Vec::new();
    let mut stage = plan.start();
    loop {
        made.push(stage);
        stage = match stage {
            AuthStage::Load(0) => plan.key_loaded(0, Some(true)),
            AuthStage::Load(i) => plan.key_loaded(i, Some(false)),
            AuthStage::Accepted | AuthStage::Failed => break,
            other => plan.offer_answered(other, false),
        };
    }
    assert_eq!(
        made,
        vec![
            AuthStage::Load(0),
            AuthStage::Key(0, true, KeyHash::Sha512),
            AuthStage::Key(0, true, KeyHash::Sha256),
            AuthStage::Key(0, true, KeyHash::Legacy),
            AuthStage::Load(1),
            AuthStage::Key(1, false, KeyHash::Legacy),
            AuthStage::Password,
            AuthStage::NoneMethod,
            AuthStage::Failed,
        ]
    );
    assert_eq!(plan.offer_answered(AuthStage::Password, true), AuthStage::Accepted);
    assert_eq!(plan.key_loaded(0, None), AuthStage::Load(1));
    assert_eq!(plan.offer_answered(AuthStage::Password, false), AuthStage::NoneMethod);
    assert_eq!(plan.offer_answered(AuthStage::NoneMethod, true), AuthStage::Accepted);
    let bare = AuthPlan { keys: 0, password: false };
    assert_eq!(bare.start(), AuthStage::NoneMethod);
    assert_eq!(bare.offer_answered(AuthStage::NoneMethod, false), AuthStage::Failed);
}

#[test]
fn exit_status_after_close_counts() {
    let mut r = SessionReader::new();
    assert!(matches!(r.step(ChannelEvent::Data(vec![1])), SessionOutput::Stdout(b) if b == [1]));
    assert!(matches!(r.step(ChannelEvent::Extended(vec![2])), SessionOutput::Stderr(b) if b == [2]));
    r.step(ChannelEvent::Eof);
    r.step(ChannelEvent::Close);
    assert_eq!(r.phase, ReaderPhase::Draining);
    assert!(matches!(r.step(ChannelEvent::Data(vec![3])), SessionOutput::Nothing));
    r.step(ChannelEvent::ExitStatus(42));
    assert_eq!((r.phase, r.code), (ReaderPhase::Draining, 42));
    r.step(ChannelEvent::Gone);
    assert_eq!((r.phase, r.code), (ReaderPhase::Finished, 42));
    let mut r = SessionReader::new();
    r.step(ChannelEvent::Other);
    r.step(ChannelEvent::ExitStatus(0xffff_ffff));
    assert_eq!((r.phase, r.code), (ReaderPhase::Finished, -1));
    let mut r = SessionReader::new();
    r.step(ChannelEvent::Close);
    r.time_out();
    assert_eq!((r.phase, r.code), (ReaderPhase::Finished, 0));
}

#[test]
fn recorded_status_wins() {
    let mut s = ExitStatuses::new();
    s.record_exit_status(3, 7);
    s.record_exit_status(3, 9);
    assert_eq!(s.resolve(4, 5), 5);
    assert_eq!(s.resolve(3, 0), 9);
    assert_eq!(s.resolve(3, 1), 1);
}

#[test]
fn pumps() {
    assert!(matches!(channel_to_socket(ChannelEvent::Data(vec![9])), ToSocket::Write(b) if b == [9]));
    assert!(matches!(channel_to_socket(ChannelEvent::Extended(vec![9])), ToSocket::Skip));
    assert!(matches!(channel_to_socket(ChannelEvent::ExitStatus(1)), ToSocket::Skip));
    assert!(matches!(channel_to_socket(ChannelEvent::Eof), ToSocket::Stop));
    assert!(matches!(channel_to_socket(ChannelEvent::Close), ToSocket::Stop));
    assert!(matches!(channel_to_socket(ChannelEvent::Gone), ToSocket::Stop));
    assert!(matches!(socket_to_channel(SocketRead::Bytes(vec![])), ToChannel::SendEof));
    assert!(matches!(socket_to_channel(SocketRead::Bytes(vec![1])), ToChannel::Send(b) if b == [1]));
    assert!(matches!(socket_to_channel(SocketRead::Failed), ToChannel::Stop));
}

#[test]
fn tunnels() {
    let t = local_tunnel(&spec(80, "inner", 8080));
    assert_eq!((t.host.as_str(), t.port, t.origin.as_str(), t.origin_port), ("inner", 8080, "127.0.0.1", 80));
    let t = proxy_tunnel("h", 443);
    assert_eq!((t.host.as_str(), t.port, t.origin.as_str(), t.origin_port), ("h", 443, "127.0.0.1", 0));
}

#[test]
fn agent_pipes() {
    assert_eq!(agent_pipe_name(r"\\.\pipe\openssh-ssh-agent").as_deref(), Some("openssh-ssh-agent"));
    assert_eq!(agent_pipe_name("/tmp/agent"), None);
}

#[test]
fn asked_variables_are_sent() {
    let options: Vec<String> =
        ["SendEnv A", "sendenv=B  C", "Port=22", "SENDENV = D", " SendEnv\tE ", "SendEnvy F", "SendEnv"]
            .iter()
            .map(|s| s.to_string())
            .collect();
    let asked = sent_env_names(&options);
    assert_eq!(asked, vec!["A", "B", "C", "D", "E"]);
    assert!(should_send_env("A", &asked) && should_send_env("E", &asked));
    assert!(should_send_env("LC_ALL", &asked) && should_send_env("LANG", &[]));
    assert!(!should_send_env("F", &asked) && !should_send_env("a", &asked));
    assert!(!should_send_env("PATH", &[]));
}
