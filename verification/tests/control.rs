//! The control socket.

use passhrs::cli::Cli;
use passhrs::control::{
    accept_loop, control_command, control_role, falls_back, has_no_fresh_auth, header_end,
    read_frame_len, resume_frame, resume_request, resume_step, write_cmd_frame, write_data_frame, write_done,
    ControlCommand, ControlError, ControlRole, ControlSocketGuard, HeaderEnd, MasterAction, MasterEvent,
    MasterRelay, ResumeRequest, ResumeStep, SocketFailure,
};
use passhrs::relay::ChannelEvent;

fn cli() -> Cli {
    Cli { destination: Some("user@host".to_string()), ..Cli::default() }
}

#[test]
fn has_no_fresh_auth_omits_passphrase() {
    let cli = Cli {
        passphrase: Some("anything".to_string()),
        control_path: Some("/tmp/p.sock".to_string()),
        command: vec!["true".to_string()],
        ..cli()
    };
    assert!(cli.passphrase.is_some());
    assert!(cli.passphrase_file.is_none());
    assert!(cli.identity_file.is_empty());
    assert!(cli.password.is_none());
    assert!(cli.password_file.is_none());
    assert!(cli.control_path.is_some());
    assert!(has_no_fresh_auth(&cli));
}

#[test]
fn has_no_fresh_auth_suppresses_when_identity_present() {
    let cli = Cli {
        identity_file: vec!["/tmp/key".to_string()],
        command: vec!["true".to_string()],
        ..cli()
    };
    assert!(!cli.identity_file.is_empty());
    assert!(!has_no_fresh_auth(&cli));
}

#[test]
fn has_no_fresh_auth_suppresses_when_password_present() {
    let cli = Cli {
        password: Some("x".to_string()),
        command: vec!["true".to_string()],
        ..cli()
    };
    assert!(cli.password.is_some());
    assert!(!has_no_fresh_auth(&cli));
}

#[test]
fn has_no_fresh_auth_suppresses_when_password_file_present() {
    let cli = Cli {
        password_file: Some("/tmp/pw".to_string()),
        command: vec!["true".to_string()],
        ..cli()
    };
    assert!(cli.password_file.is_some());
    assert!(!has_no_fresh_auth(&cli));
}

#[test]
fn has_no_fresh_auth_true_for_plain_invocation() {
    let cli = Cli { command: vec!["echo".to_string(), "hi".to_string()], ..cli() };
    assert!(cli.identity_file.is_empty());
    assert!(cli.password.is_none());
    assert!(cli.password_file.is_none());
    assert!(has_no_fresh_auth(&cli));
}

#[test]
fn roles() {
    assert_eq!(control_role(&cli()), ControlRole::Plain);
    let socket = || Cli { control_path: Some("/s".to_string()), ..cli() };
    assert_eq!(control_role(&socket()), ControlRole::Resume);
    let master = Cli { password: Some("x".to_string()), ..socket() };
    assert_eq!(control_role(&master), ControlRole::Master);
}

#[test]
fn control_commands() {
    let with = |c: &str, s: Option<&str>| Cli {
        control_command: Some(c.to_string()),
        control_path: s.map(str::to_string),
        ..Cli::default()
    };
    assert_eq!(control_command(&Cli::default()), None);
    assert_eq!(control_command(&with("check", Some("/s"))), Some(Ok(ControlCommand::Check)));
    assert_eq!(control_command(&with("exit", Some("/s"))), Some(Ok(ControlCommand::Terminate)));
    assert_eq!(control_command(&with("stop", Some("/s"))), Some(Ok(ControlCommand::Terminate)));
    assert_eq!(control_command(&with("go", Some("/s"))), Some(Err(ControlError::Unknown)));
    assert_eq!(control_command(&with("check", None)), Some(Err(ControlError::NoSocket)));
}

#[test]
fn guard_gives_its_path_once() {
    let mut g = ControlSocketGuard::new("/tmp/x.sock".to_string());
    assert_eq!(g.path().as_deref(), Some("/tmp/x.sock"));
    assert_eq!(g.path(), None);
}

#[test]
fn heads_of_command_frames() {
    assert_eq!(header_end(&[]), HeaderEnd::Clean);
    assert_eq!(header_end(&[0]), HeaderEnd::CutShort);
    assert_eq!(header_end(&[0, 0, 1]), HeaderEnd::CutShort);
    assert_eq!(header_end(&[0, 0, 1, 2]), HeaderEnd::Len(258));
}

#[test]
fn frames() {
    assert_eq!(write_cmd_frame(b"ls"), vec![0, 0, 0, 2, b'l', b's']);
    assert_eq!(write_data_frame(1, b"x"), vec![0, 0, 0, 1, 1, b'x']);
    assert_eq!(write_data_frame(2, b""), vec![0, 0, 0, 0, 2]);
    assert_eq!(write_done(0), vec![0, 0, 0, 1, 0, 0]);
    assert_eq!(write_done(-1), vec![0, 0, 0, 1, 0, 255]);
    assert_eq!(write_done(258), vec![0, 0, 0, 1, 0, 2]);
    assert_eq!(read_frame_len(&[1, 2, 3, 4, 9]), 0x0102_0304);
    let long = vec![7u8; 70_000];
    let frame = write_cmd_frame(&long);
    assert_eq!(read_frame_len(&frame), 70_000);
    assert_eq!(&frame[4..], &long[..]);
}

#[test]
fn requests() {
    assert!(matches!(resume_request(None), ResumeRequest::Nothing));
    assert!(matches!(resume_request(Some(vec![0xff])), ResumeRequest::NotUtf8));
    assert!(matches!(resume_request(Some(b"\r\n\n".to_vec())), ResumeRequest::Empty));
    match resume_request(Some("echo \u{e9}\r\n".as_bytes().to_vec())) {
        ResumeRequest::Exec(c) => assert_eq!(c, "echo \u{e9}"),
        _ => panic!("no command"),
    }
}

#[test]
fn the_client_sends_its_command() {
    assert_eq!(resume_frame(&[]), vec![0, 0, 0, 4, b't', b'r', b'u', b'e']);
    let frame = resume_frame(&["a".to_string(), "b c".to_string()]);
    assert_eq!(&frame[4..], b"a b c");
}

#[test]
fn master_and_client_agree() {
    let mut relay = MasterRelay::new();
    let mut wire = Vec::new();
    for event in [
        ChannelEvent::Other,
        ChannelEvent::Data(b"out".to_vec()),
        ChannelEvent::Extended(b"err".to_vec()),
        ChannelEvent::ExitStatus(3),
        ChannelEvent::Data(b"!".to_vec()),
        ChannelEvent::Eof,
        ChannelEvent::Data(b"late".to_vec()),
    ] {
        wire.extend(relay.step(&event));
    }
    assert!(relay.finished);
    let (mut out, mut err, mut code) = (Vec::new(), Vec::new(), None);
    let mut rest = &wire[..];
    while code.is_none() {
        let len = read_frame_len(&rest[..4]) as usize;
        let tag = rest[4];
        let payload = rest[5..5 + len].to_vec();
        rest = &rest[5 + len..];
        match resume_step(tag, payload, false) {
            ResumeStep::Stdout(b) => out.extend(b),
            ResumeStep::Stderr(b) => err.extend(b),
            ResumeStep::Done(c) => code = Some(c),
            _ => panic!("unexpected frame"),
        }
    }
    assert_eq!((out.as_slice(), err.as_slice(), code), (&b"out!"[..], &b"err"[..], Some(3)));
    assert!(rest.is_empty());
}

#[test]
fn quiet_and_unknown_frames() {
    assert!(matches!(resume_step(1, vec![1], true), ResumeStep::Skip));
    assert!(matches!(resume_step(2, vec![1], true), ResumeStep::Skip));
    assert!(matches!(resume_step(0, vec![], true), ResumeStep::Done(0)));
    assert!(matches!(resume_step(9, vec![], false), ResumeStep::UnknownTag(9)));
}

#[test]
fn failures_and_signals() {
    assert!(falls_back(SocketFailure::NotFound));
    assert!(falls_back(SocketFailure::ConnectionRefused));
    assert!(falls_back(SocketFailure::PermissionDenied));
    assert!(!falls_back(SocketFailure::Other));
    assert_eq!(accept_loop(MasterEvent::Interrupt), MasterAction::Shutdown);
    assert_eq!(accept_loop(MasterEvent::Terminate), MasterAction::Shutdown);
    assert_eq!(accept_loop(MasterEvent::Connected), MasterAction::Serve);
    assert_eq!(accept_loop(MasterEvent::AcceptFailed), MasterAction::Continue);
}
