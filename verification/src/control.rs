//! Sharing one connection over a control socket.
//!
//! A master serves commands of other invocations over its connection. The
//! client sends one frame with the command line; the master answers with
//! frames of output and a last one with the exit code:
//!
//! ```text
//! command := u32_be(length) payload
//! stdout  := u32_be(length) 0x01 payload
//! stderr  := u32_be(length) 0x02 payload
//! done    := u32_be(1) 0x00 exit_code
//! ```

use vstd::prelude::*;
use vstd::string::*;
use vstd::utf8::{decode_utf8, encode_utf8, valid_utf8};

use crate::cli::Cli;
use crate::relay::{ChannelEvent, ChannelEventModel};
use crate::ssh::{exit_code, to_exit_code};
use crate::text::{
    bytes_of, chars_of, join, joined, push_bytes, same_text, string_of, strip_back, texts,
    trim_end_matches, utf8_text,
};

verus! {

broadcast use vstd::string::group_string_axioms;

// ---------------------------------------------------------------------
// Which role an invocation has
// ---------------------------------------------------------------------

/// Whether the command line brings nothing to authenticate with: no identity
/// file, no password and no password file. A passphrase alone does not count.
pub fn has_no_fresh_auth(cli: &Cli) -> (r: bool)
    ensures
        r == (cli.identity_file@.len() == 0 && cli.password is None && cli.password_file is None),
        r == !brings_credentials(*cli),
{
    cli.identity_file.len() == 0 && cli.password.is_none() && cli.password_file.is_none()
}

/// What an invocation does with the control socket.
#[derive(Clone, Copy, PartialEq, Eq, Structural, Debug)]
pub enum ControlRole {
    /// There is no control socket.
    Plain,
    /// Ask the master; connect directly if none answers.
    Resume,
    /// Connect and serve others.
    Master,
}

/// Whether an invocation brings something to authenticate with.
pub open spec fn brings_credentials(cli: Cli) -> bool {
    cli.identity_file@.len() > 0 || cli.password is Some || cli.password_file is Some
}

/// The role of an invocation: with a control socket it is a master if it
/// brings something to authenticate with, else it asks the master.
pub open spec fn role_model(socket: bool, credentials: bool) -> ControlRole {
    if !socket {
        ControlRole::Plain
    } else if credentials {
        ControlRole::Master
    } else {
        ControlRole::Resume
    }
}

/// The role of an invocation; see [`role_model`].
pub fn control_role(cli: &Cli) -> (r: ControlRole)
    ensures
        r == role_model(cli.control_path is Some, brings_credentials(*cli)),
        r == (if cli.control_path is None {
            ControlRole::Plain
        } else if cli.identity_file@.len() == 0 && cli.password is None && cli.password_file
            is None {
            ControlRole::Resume
        } else {
            ControlRole::Master
        }),
{
    if cli.control_path.is_none() {
        ControlRole::Plain
    } else if has_no_fresh_auth(cli) {
        ControlRole::Resume
    } else {
        ControlRole::Master
    }
}

/// A command for the master.
#[derive(Clone, Copy, PartialEq, Eq, Structural, Debug)]
pub enum ControlCommand {
    /// Say whether a master runs.
    Check,
    /// Ask the master to end.
    Terminate,
}

/// Why a control command was refused.
#[derive(Clone, Copy, PartialEq, Eq, Structural, Debug)]
pub enum ControlError {
    /// There is no control socket to send it to.
    NoSocket,
    /// It is none of the known ones.
    Unknown,
}

/// `check`, or one of `exit` and `stop`; a control socket is needed for
/// either.
pub open spec fn control_command_model(command: Seq<char>, socket: bool) -> Result<
    ControlCommand,
    ControlError,
> {
    if !socket {
        Err(ControlError::NoSocket)
    } else if command == "check"@ {
        Ok(ControlCommand::Check)
    } else if command == "exit"@ || command == "stop"@ {
        Ok(ControlCommand::Terminate)
    } else {
        Err(ControlError::Unknown)
    }
}

/// Reads the control command of a command line; `None` where there is none.
pub fn control_command(cli: &Cli) -> (r: Option<Result<ControlCommand, ControlError>>)
    ensures
        r == (match cli.control_command {
            None => None,
            Some(c) => Some(control_command_model(c@, cli.control_path is Some)),
        }),
{
    match &cli.control_command {
        None => None,
        Some(c) => Some(
            if cli.control_path.is_none() {
                Err(ControlError::NoSocket)
            } else if same_text(c.as_str(), "check") {
                Ok(ControlCommand::Check)
            } else if same_text(c.as_str(), "exit") || same_text(c.as_str(), "stop") {
                Ok(ControlCommand::Terminate)
            } else {
                Err(ControlError::Unknown)
            },
        ),
    }
}

/// The socket file that a master has to remove when it ends.
pub struct ControlSocketGuard {
    path: Option<String>,
}

impl ControlSocketGuard {
    /// The file to remove.
    pub closed spec fn guarded(&self) -> Option<Seq<char>> {
        crate::text::opt_text(self.path)
    }

    /// Guards a socket file.
    pub fn new(path: String) -> (r: Self)
        ensures
            r.guarded() == Some(path@),
    {
        ControlSocketGuard { path: Some(path) }
    }

    /// Takes the file out of the guard, which then has nothing to remove; a
    /// second call gives none.
    pub fn path(&mut self) -> (r: Option<String>)
        ensures
            crate::text::opt_text(r) == old(self).guarded(),
            final(self).guarded() is None,
    {
        self.path.take()
    }
}

// ---------------------------------------------------------------------
// Frames
// ---------------------------------------------------------------------

/// Four bytes, highest first.
pub open spec fn be32(n: u32) -> Seq<u8> {
    seq![
        (n / 0x100_0000) as u8,
        (n / 0x1_0000 % 256) as u8,
        (n / 0x100 % 256) as u8,
        (n % 256) as u8,
    ]
}

/// The number that four bytes denote, highest first.
pub open spec fn from_be32(b: Seq<u8>) -> u32 {
    (b[0] * 0x100_0000 + b[1] * 0x1_0000 + b[2] * 0x100 + b[3]) as u32
}

/// The length of a payload as a frame states it: modulo 2^32.
pub open spec fn stated_len(payload: Seq<u8>) -> u32 {
    (payload.len() % 0x1_0000_0000) as u32
}

/// A frame without a tag.
pub open spec fn command_frame(payload: Seq<u8>) -> Seq<u8> {
    be32(stated_len(payload)) + payload
}

/// A frame with a tag.
pub open spec fn tagged_frame(tag: u8, payload: Seq<u8>) -> Seq<u8> {
    be32(stated_len(payload)) + seq![tag] + payload
}

/// The low byte of an exit code.
pub open spec fn low_byte(code: i32) -> u8 {
    (code as int % 256) as u8
}

/// The last frame of an answer.
pub open spec fn done_frame_model(code: i32) -> Seq<u8> {
    tagged_frame(0, seq![low_byte(code)])
}

fn push_be32(out: &mut Vec<u8>, n: u32)
    ensures
        final(out)@ == old(out)@ + be32(n),
{
    out.push((n / 0x100_0000) as u8);
    out.push((n / 0x1_0000 % 256) as u8);
    out.push((n / 0x100 % 256) as u8);
    out.push((n % 256) as u8);
    assert(out@ =~= old(out)@ + be32(n));
}

fn frame_len(payload: &[u8]) -> (r: u32)
    ensures
        r == stated_len(payload@),
{
    (payload.len() as u64 % 0x1_0000_0000) as u32
}

/// The frame of a command line.
pub fn write_cmd_frame(payload: &[u8]) -> (r: Vec<u8>)
    ensures
        r@ == command_frame(payload@),
{
    let mut out: Vec<u8> = Vec::new();
    push_be32(&mut out, frame_len(payload));
    push_bytes(&mut out, payload);
    assert(out@ =~= command_frame(payload@));
    out
}

/// A frame of output; the tag is 1 for the data and 2 for the error stream.
pub fn write_data_frame(tag: u8, payload: &[u8]) -> (r: Vec<u8>)
    ensures
        r@ == tagged_frame(tag, payload@),
{
    let mut out: Vec<u8> = Vec::new();
    push_be32(&mut out, frame_len(payload));
    out.push(tag);
    push_bytes(&mut out, payload);
    assert(out@ =~= tagged_frame(tag, payload@));
    out
}

fn code_byte(code: i32) -> (r: u8)
    ensures
        r == low_byte(code),
{
    let shifted: i64 = code as i64 + 0x1_0000_0000;
    (shifted as u64 % 256) as u8
}

/// The last frame of an answer: the low byte of the exit code.
pub fn write_done(code: i32) -> (r: Vec<u8>)
    ensures
        r@ == done_frame_model(code),
{
    let payload: Vec<u8> = vec![code_byte(code)];
    assert(payload@ =~= seq![low_byte(code)]);
    write_data_frame(0, payload.as_slice())
}

/// The payload length that the head of a frame states.
pub fn read_frame_len(header: &[u8]) -> (r: u32)
    requires
        header@.len() >= 4,
    ensures
        r == from_be32(header@),
{
    (header[0] as u32) * 0x100_0000 + (header[1] as u32) * 0x1_0000 + (header[2] as u32) * 0x100
        + header[3] as u32
}

/// What was read of the head of a command frame before the socket ended or
/// the head was complete.
#[derive(Clone, Copy, PartialEq, Eq, Structural, Debug)]
pub enum HeaderEnd {
    /// The peer closed the socket before it sent anything.
    Clean,
    /// The peer closed the socket within the head.
    CutShort,
    /// The head is complete; the payload has this length.
    Len(u32),
}

/// What was read of the head of a command frame.
pub open spec fn header_model(read: Seq<u8>) -> HeaderEnd {
    if read.len() == 0 {
        HeaderEnd::Clean
    } else if read.len() < 4 {
        HeaderEnd::CutShort
    } else {
        HeaderEnd::Len(from_be32(read))
    }
}

/// Judges what was read of the head of a command frame.
pub fn header_end(read: &[u8]) -> (r: HeaderEnd)
    ensures
        r == header_model(read@),
        r == (if read@.len() == 0 {
            HeaderEnd::Clean
        } else if read@.len() < 4 {
            HeaderEnd::CutShort
        } else {
            HeaderEnd::Len(from_be32(read@))
        }),
{
    if read.len() == 0 {
        HeaderEnd::Clean
    } else if read.len() < 4 {
        HeaderEnd::CutShort
    } else {
        HeaderEnd::Len(read_frame_len(read))
    }
}

// ---------------------------------------------------------------------
// The master
// ---------------------------------------------------------------------

/// What the master does for a client.
pub enum ResumeRequest {
    /// The client went away.
    Nothing,
    /// The command is empty: answer with exit code 0.
    Empty,
    /// Run this command.
    Exec(String),
    /// The command is not UTF-8.
    NotUtf8,
}

/// What the master does for a client, over texts.
pub enum ResumeRequestModel {
    Nothing,
    Empty,
    Exec(Seq<char>),
    NotUtf8,
}

impl View for ResumeRequest {
    type V = ResumeRequestModel;

    open spec fn view(&self) -> ResumeRequestModel {
        match self {
            ResumeRequest::Nothing => ResumeRequestModel::Nothing,
            ResumeRequest::Empty => ResumeRequestModel::Empty,
            ResumeRequest::Exec(c) => ResumeRequestModel::Exec(c@),
            ResumeRequest::NotUtf8 => ResumeRequestModel::NotUtf8,
        }
    }
}

/// The command in the frame of a client, line ends after it dropped.
pub open spec fn resume_request_model(frame: Option<Seq<u8>>) -> ResumeRequestModel {
    match frame {
        None => ResumeRequestModel::Nothing,
        Some(b) => if !valid_utf8(b) {
            ResumeRequestModel::NotUtf8
        } else {
            let command = strip_back(strip_back(decode_utf8(b), '\n'), '\r');
            if command.len() == 0 {
                ResumeRequestModel::Empty
            } else {
                ResumeRequestModel::Exec(command)
            }
        },
    }
}

/// Reads the payload of a command frame; `None` stands for a client that
/// closed the socket first.
pub fn resume_request(frame: Option<Vec<u8>>) -> (r: ResumeRequest)
    ensures
        r@ == resume_request_model(
            match frame {
                Some(b) => Some(b@),
                None => None,
            },
        ),
{
    match frame {
        None => ResumeRequest::Nothing,
        Some(b) => match utf8_text(b) {
            None => ResumeRequest::NotUtf8,
            Some(line) => {
                let all = chars_of(line.as_str());
                let command = trim_end_matches(trim_end_matches(all.as_slice(), '\n'), '\r');
                if command.len() == 0 {
                    ResumeRequest::Empty
                } else {
                    ResumeRequest::Exec(string_of(command))
                }
            },
        },
    }
}

/// The answer of the master to one client as it comes about.
#[derive(Clone, Copy, PartialEq, Eq, Structural, Debug)]
pub struct MasterRelay {
    pub code: i32,
    pub finished: bool,
}

impl MasterRelay {
    /// The state after an event of the channel.
    pub open spec fn after(self, event: ChannelEventModel) -> MasterRelay {
        if self.finished {
            self
        } else {
            match event {
                ChannelEventModel::ExitStatus(s) => MasterRelay { code: exit_code(s), ..self },
                ChannelEventModel::Eof | ChannelEventModel::Close
                | ChannelEventModel::Gone => MasterRelay { finished: true, ..self },
                _ => self,
            }
        }
    }

    /// The bytes that an event of the channel makes the master send: output
    /// as it comes, and the exit code when the channel ends.
    pub open spec fn sends(self, event: ChannelEventModel) -> Seq<u8> {
        if self.finished {
            Seq::empty()
        } else {
            match event {
                ChannelEventModel::Data(b) => tagged_frame(1, b),
                ChannelEventModel::Extended(b) => tagged_frame(2, b),
                ChannelEventModel::Eof | ChannelEventModel::Close
                | ChannelEventModel::Gone => done_frame_model(self.code),
                _ => Seq::empty(),
            }
        }
    }

    /// The state before any event.
    pub fn new() -> (r: Self)
        ensures
            r == (MasterRelay { code: 0, finished: false }),
    {
        MasterRelay { code: 0, finished: false }
    }

    /// Takes one event of the channel and gives the bytes to send.
    pub fn step(&mut self, event: &ChannelEvent) -> (r: Vec<u8>)
        ensures
            *final(self) == old(self).after(event@),
            r@ == old(self).sends(event@),
    {
        if self.finished {
            return Vec::new();
        }
        match event {
            ChannelEvent::Data(b) => write_data_frame(1, b.as_slice()),
            ChannelEvent::Extended(b) => write_data_frame(2, b.as_slice()),
            ChannelEvent::ExitStatus(s) => {
                self.code = to_exit_code(*s);
                Vec::new()
            },
            ChannelEvent::Eof => {
                self.finished = true;
                write_done(self.code)
            },
            ChannelEvent::Close => {
                self.finished = true;
                write_done(self.code)
            },
            ChannelEvent::Gone => {
                self.finished = true;
                write_done(self.code)
            },
            ChannelEvent::Other => Vec::new(),
        }
    }
}

/// What wakes the accept loop of a master.
#[derive(Clone, Copy, PartialEq, Eq, Structural, Debug)]
pub enum MasterEvent {
    Interrupt,
    Terminate,
    Connected,
    AcceptFailed,
}

/// What the accept loop of a master does.
#[derive(Clone, Copy, PartialEq, Eq, Structural, Debug)]
pub enum MasterAction {
    Shutdown,
    Serve,
    Continue,
}

/// Signals end the master; a failed accept does not.
pub open spec fn loop_model(event: MasterEvent) -> MasterAction {
    match event {
        MasterEvent::Interrupt => MasterAction::Shutdown,
        MasterEvent::Terminate => MasterAction::Shutdown,
        MasterEvent::Connected => MasterAction::Serve,
        MasterEvent::AcceptFailed => MasterAction::Continue,
    }
}

/// What the accept loop of a master does; see [`loop_model`].
pub fn accept_loop(event: MasterEvent) -> (r: MasterAction)
    ensures
        r == loop_model(event),
        r == (match event {
            MasterEvent::Interrupt => MasterAction::Shutdown,
            MasterEvent::Terminate => MasterAction::Shutdown,
            MasterEvent::Connected => MasterAction::Serve,
            MasterEvent::AcceptFailed => MasterAction::Continue,
        }),
{
    match event {
        MasterEvent::Interrupt => MasterAction::Shutdown,
        MasterEvent::Terminate => MasterAction::Shutdown,
        MasterEvent::Connected => MasterAction::Serve,
        MasterEvent::AcceptFailed => MasterAction::Continue,
    }
}

// ---------------------------------------------------------------------
// The client
// ---------------------------------------------------------------------

/// Why the control socket could not be reached.
#[derive(Clone, Copy, PartialEq, Eq, Structural, Debug)]
pub enum SocketFailure {
    NotFound,
    ConnectionRefused,
    PermissionDenied,
    Other,
}

/// Whether a direct connection is made where the socket cannot be reached;
/// any other failure is an error.
pub open spec fn connects_directly(failure: SocketFailure) -> bool {
    failure != SocketFailure::Other
}

/// Whether a direct connection is made; see [`connects_directly`].
pub fn falls_back(failure: SocketFailure) -> (r: bool)
    ensures
        r == connects_directly(failure),
        r == (failure != SocketFailure::Other),
{
    match failure {
        SocketFailure::NotFound => true,
        SocketFailure::ConnectionRefused => true,
        SocketFailure::PermissionDenied => true,
        SocketFailure::Other => false,
    }
}

/// The command line for the master: the words joined with blanks, or `true`
/// where there are none.
pub open spec fn resume_line(command: Seq<Seq<char>>) -> Seq<char> {
    if command.len() == 0 {
        "true"@
    } else {
        joined(command, " "@)
    }
}

/// The frame that asks the master to run the command of a command line.
pub fn resume_frame(command: &[String]) -> (r: Vec<u8>)
    ensures
        r@ == command_frame(encode_utf8(resume_line(texts(command@)))),
{
    let line = if command.len() == 0 {
        "true".to_owned()
    } else {
        join(command, " ")
    };
    let bytes = bytes_of(line.as_str());
    write_cmd_frame(bytes.as_slice())
}

/// What the client does with a frame of the master.
pub enum ResumeStep {
    Stdout(Vec<u8>),
    Stderr(Vec<u8>),
    /// Output that is not wanted.
    Skip,
    /// The command ended with this exit code.
    Done(i32),
    /// The tag is none that is known.
    UnknownTag(u8),
}

/// What the client does with a frame of the master, over byte sequences.
pub enum ResumeStepModel {
    Stdout(Seq<u8>),
    Stderr(Seq<u8>),
    Skip,
    Done(i32),
    UnknownTag(u8),
}

impl View for ResumeStep {
    type V = ResumeStepModel;

    open spec fn view(&self) -> ResumeStepModel {
        match self {
            ResumeStep::Stdout(b) => ResumeStepModel::Stdout(b@),
            ResumeStep::Stderr(b) => ResumeStepModel::Stderr(b@),
            ResumeStep::Skip => ResumeStepModel::Skip,
            ResumeStep::Done(c) => ResumeStepModel::Done(*c),
            ResumeStep::UnknownTag(t) => ResumeStepModel::UnknownTag(*t),
        }
    }
}

/// Output is passed on unless it is to be quiet; the exit code is the first
/// byte of the last frame, or 0 where that has none.
pub open spec fn resume_step_model(tag: u8, payload: Seq<u8>, quiet: bool) -> ResumeStepModel {
    if tag == 1 {
        if quiet {
            ResumeStepModel::Skip
        } else {
            ResumeStepModel::Stdout(payload)
        }
    } else if tag == 2 {
        if quiet {
            ResumeStepModel::Skip
        } else {
            ResumeStepModel::Stderr(payload)
        }
    } else if tag == 0 {
        ResumeStepModel::Done(
            if payload.len() > 0 {
                payload[0] as i32
            } else {
                0
            },
        )
    } else {
        ResumeStepModel::UnknownTag(tag)
    }
}

/// Decides on a frame of the master; see [`resume_step_model`].
pub fn resume_step(tag: u8, payload: Vec<u8>, quiet: bool) -> (r: ResumeStep)
    ensures
        r@ == resume_step_model(tag, payload@, quiet),
{
    if tag == 1 {
        if quiet {
            ResumeStep::Skip
        } else {
            ResumeStep::Stdout(payload)
        }
    } else if tag == 2 {
        if quiet {
            ResumeStep::Skip
        } else {
            ResumeStep::Stderr(payload)
        }
    } else if tag == 0 {
        ResumeStep::Done(
            if payload.len() > 0 {
                payload[0] as i32
            } else {
                0
            },
        )
    } else {
        ResumeStep::UnknownTag(tag)
    }
}

// ---------------------------------------------------------------------
// Laws
// ---------------------------------------------------------------------

/// Four bytes read back as the number they were written from.
pub proof fn be32_reads_back(n: u32, rest: Seq<u8>)
    ensures
        from_be32(be32(n) + rest) == n,
{
    let b = be32(n) + rest;
    assert(b[0] == n / 0x100_0000);
    assert(b[1] == n / 0x1_0000 % 256);
    assert(b[2] == n / 0x100 % 256);
    assert(b[3] == n % 256);
}

/// The last frame states a length of one and holds the low byte of the exit
/// code behind its tag.
pub proof fn done_frame_holds_the_code(code: i32)
    ensures
        done_frame_model(code).len() == 6,
        from_be32(done_frame_model(code)) == 1,
        done_frame_model(code)[4] == 0,
        done_frame_model(code)[5] == low_byte(code),
{
    frame_is_read(0, seq![low_byte(code)], Seq::empty());
    let frame = done_frame_model(code);
    assert(frame + Seq::<u8>::empty() =~= frame);
}

/// A command frame states the length of its payload and holds it as it was.
pub proof fn command_frame_reads_back(payload: Seq<u8>)
    requires
        payload.len() < 0x1_0000_0000,
    ensures
        from_be32(command_frame(payload)) == payload.len(),
        command_frame(payload).skip(4) == payload,
{
    be32_reads_back(stated_len(payload), payload);
    assert(command_frame(payload).skip(4) =~= payload);
}

/// The command that the master reads is the one that the client was given,
/// without line ends at its end.
pub proof fn master_reads_the_command(command: Seq<Seq<char>>)
    requires
        encode_utf8(resume_line(command)).len() < 0x1_0000_0000,
    ensures
        ({
            let frame = command_frame(encode_utf8(resume_line(command)));
            let line = strip_back(strip_back(resume_line(command), '\n'), '\r');
            &&& from_be32(frame) == frame.len() - 4
            &&& resume_request_model(Some(frame.skip(4))) == if line.len() == 0 {
                ResumeRequestModel::Empty
            } else {
                ResumeRequestModel::Exec(line)
            }
        }),
{
    let bytes = encode_utf8(resume_line(command));
    command_frame_reads_back(bytes);
    vstd::utf8::encode_utf8_valid_utf8(resume_line(command));
    vstd::utf8::encode_utf8_decode_utf8(resume_line(command));
}

/// What a client makes of the bytes of a master.
pub struct ResumeOutcome {
    pub stdout: Seq<u8>,
    pub stderr: Seq<u8>,
    pub code: Option<i32>,
}

/// Reads frames until the last one, or until the bytes do not suffice.
pub open spec fn client_reads(bytes: Seq<u8>) -> ResumeOutcome
    decreases bytes.len(),
{
    let nothing = ResumeOutcome { stdout: Seq::empty(), stderr: Seq::empty(), code: None };
    if bytes.len() < 5 {
        nothing
    } else {
        let len = from_be32(bytes) as int;
        if bytes.len() < 5 + len {
            nothing
        } else {
            let payload = bytes.subrange(5, 5 + len);
            let rest = bytes.skip(5 + len);
            match resume_step_model(bytes[4], payload, false) {
                ResumeStepModel::Stdout(b) => {
                    let more = client_reads(rest);
                    ResumeOutcome { stdout: b + more.stdout, ..more }
                },
                ResumeStepModel::Stderr(b) => {
                    let more = client_reads(rest);
                    ResumeOutcome { stderr: b + more.stderr, ..more }
                },
                ResumeStepModel::Done(c) => ResumeOutcome { code: Some(c), ..nothing },
                _ => nothing,
            }
        }
    }
}

/// The bytes that a master sends for a run of channel events.
pub open spec fn master_sends(relay: MasterRelay, events: Seq<ChannelEventModel>) -> Seq<u8>
    decreases events.len(),
{
    if events.len() == 0 {
        Seq::empty()
    } else {
        relay.sends(events[0]) + master_sends(relay.after(events[0]), events.skip(1))
    }
}

/// The state of a master after a run of channel events.
pub open spec fn master_after(relay: MasterRelay, events: Seq<ChannelEventModel>) -> MasterRelay
    decreases events.len(),
{
    if events.len() == 0 {
        relay
    } else {
        master_after(relay.after(events[0]), events.skip(1))
    }
}

/// The data bytes of the events before the channel ends.
pub open spec fn stdout_of(events: Seq<ChannelEventModel>) -> Seq<u8>
    decreases events.len(),
{
    if events.len() == 0 || crate::relay::ends_channel(events[0]) {
        Seq::empty()
    } else {
        match events[0] {
            ChannelEventModel::Data(b) => b + stdout_of(events.skip(1)),
            _ => stdout_of(events.skip(1)),
        }
    }
}

/// The error bytes of the events before the channel ends.
pub open spec fn stderr_of(events: Seq<ChannelEventModel>) -> Seq<u8>
    decreases events.len(),
{
    if events.len() == 0 || crate::relay::ends_channel(events[0]) {
        Seq::empty()
    } else {
        match events[0] {
            ChannelEventModel::Extended(b) => b + stderr_of(events.skip(1)),
            _ => stderr_of(events.skip(1)),
        }
    }
}

/// Whether the output in an event fits in one frame.
pub open spec fn fits_frame(event: ChannelEventModel) -> bool {
    match event {
        ChannelEventModel::Data(b) => b.len() < 0x1_0000_0000,
        ChannelEventModel::Extended(b) => b.len() < 0x1_0000_0000,
        _ => true,
    }
}

proof fn frame_is_read(tag: u8, payload: Seq<u8>, rest: Seq<u8>)
    requires
        payload.len() < 0x1_0000_0000,
    ensures
        ({
            let bytes = tagged_frame(tag, payload) + rest;
            &&& bytes.len() >= 5 + payload.len()
            &&& from_be32(bytes) == payload.len()
            &&& bytes[4] == tag
            &&& bytes.subrange(5, 5 + payload.len() as int) == payload
            &&& bytes.skip(5 + payload.len() as int) == rest
        }),
{
    let bytes = tagged_frame(tag, payload) + rest;
    be32_reads_back(stated_len(payload), seq![tag] + payload + rest);
    assert(bytes =~= be32(stated_len(payload)) + (seq![tag] + payload + rest));
    assert(bytes.subrange(5, 5 + payload.len() as int) =~= payload);
    assert(bytes.skip(5 + payload.len() as int) =~= rest);
}

/// What the client prints is what the remote command printed, stream by
/// stream and in order, and its exit code is the low byte of the remote one:
/// whatever the events of the channel, as long as the channel ends and no
/// piece of output is longer than a frame can state.
pub proof fn resume_shows_the_remote_command(relay: MasterRelay, events: Seq<ChannelEventModel>)
    requires
        !relay.finished,
        master_after(relay, events).finished,
        forall|i: int| 0 <= i < events.len() ==> fits_frame(#[trigger] events[i]),
    ensures
        client_reads(master_sends(relay, events)) == (ResumeOutcome {
            stdout: stdout_of(events),
            stderr: stderr_of(events),
            code: Some(low_byte(master_after(relay, events).code) as i32),
        }),
    decreases events.len(),
{
    if events.len() > 0 {
        let event = events[0];
        let rest = events.skip(1);
        assert(fits_frame(event));
        assert forall|i: int| 0 <= i < rest.len() implies fits_frame(#[trigger] rest[i]) by {
            assert(rest[i] == events[i + 1]);
        }
        let more = master_sends(relay.after(event), rest);
        match event {
            ChannelEventModel::Data(b) => {
                frame_is_read(1, b, more);
                resume_shows_the_remote_command(relay.after(event), rest);
            },
            ChannelEventModel::Extended(b) => {
                frame_is_read(2, b, more);
                resume_shows_the_remote_command(relay.after(event), rest);
            },
            ChannelEventModel::Eof | ChannelEventModel::Close | ChannelEventModel::Gone => {
                frame_is_read(0, seq![low_byte(relay.code)], more);
                master_is_done(relay.after(event), rest);
            },
            _ => {
                assert(Seq::<u8>::empty() + more =~= more);
                resume_shows_the_remote_command(relay.after(event), rest);
            },
        }
    }
}

proof fn master_is_done(relay: MasterRelay, events: Seq<ChannelEventModel>)
    requires
        relay.finished,
    ensures
        master_after(relay, events) == relay,
    decreases events.len(),
{
    if events.len() > 0 {
        master_is_done(relay.after(events[0]), events.skip(1));
    }
}

/// A length is written in four bytes, the highest first, and read the same way.
pub proof fn lengths_are_big_endian(n: u32, b: Seq<u8>)
    ensures
        be32(n).len() == 4,
        be32(n)[0] * 0x100_0000 + be32(n)[1] * 0x1_0000 + be32(n)[2] * 0x100 + be32(n)[3] == n,
        from_be32(b) == b[0] * 0x100_0000 + b[1] * 0x1_0000 + b[2] * 0x100 + b[3],
{
}

/// A frame of output is the length of what it holds, its tag, and what it holds.
pub proof fn frames_hold_their_payload(tag: u8, payload: Seq<u8>)
    requires
        payload.len() < 0x1_0000_0000,
    ensures
        tagged_frame(tag, payload).len() == payload.len() + 5,
        from_be32(tagged_frame(tag, payload)) == payload.len(),
        tagged_frame(tag, payload)[4] == tag,
        tagged_frame(tag, payload).skip(5) == payload,
        command_frame(payload).len() == payload.len() + 4,
{
    frame_is_read(tag, payload, Seq::empty());
    let frame = tagged_frame(tag, payload);
    assert(frame + Seq::<u8>::empty() =~= frame);
    assert(frame.skip(5) =~= payload);
}

/// The last frame carries the exit code: as it is where it fits in a byte, else
/// its remainder by 256.
pub proof fn exit_codes_are_carried(code: i32)
    ensures
        0 <= code < 256 ==> low_byte(code) == code,
        (code - low_byte(code)) % 256 == 0,
        resume_step_model(0, done_frame_model(code).skip(5), false) == ResumeStepModel::Done(
            low_byte(code) as i32,
        ),
{
    frames_hold_their_payload(0, seq![low_byte(code)]);
}

/// Frames with tag 1 are output and with tag 2 errors, shown unless it is to be
/// quiet; tag 0 ends the command, quiet or not, with the code it carries, or 0;
/// no other tag is known.
pub proof fn tags_are_told_apart(tag: u8, payload: Seq<u8>, quiet: bool)
    ensures
        resume_step_model(1, payload, false) == ResumeStepModel::Stdout(payload),
        resume_step_model(2, payload, false) == ResumeStepModel::Stderr(payload),
        resume_step_model(1, payload, true) == ResumeStepModel::Skip,
        resume_step_model(2, payload, true) == ResumeStepModel::Skip,
        payload.len() > 0 ==> resume_step_model(0, payload, quiet) == ResumeStepModel::Done(
            payload[0] as i32,
        ),
        payload.len() == 0 ==> resume_step_model(0, payload, quiet) == ResumeStepModel::Done(0),
        tag > 2 ==> resume_step_model(tag, payload, quiet) == ResumeStepModel::UnknownTag(tag),
{
}

/// The master sends output as it comes, tells the exit code once, when the
/// channel ends, and is silent after that; the code is that of the last exit
/// status, or 0.
pub proof fn masters_relay_the_channel(relay: MasterRelay, bytes: Seq<u8>, status: u32)
    requires
        !relay.finished,
    ensures
        relay.sends(ChannelEventModel::Data(bytes)) == tagged_frame(1, bytes),
        relay.sends(ChannelEventModel::Extended(bytes)) == tagged_frame(2, bytes),
        relay.sends(ChannelEventModel::ExitStatus(status)).len() == 0,
        relay.sends(ChannelEventModel::Other).len() == 0,
        relay.after(ChannelEventModel::Data(bytes)) == relay,
        relay.after(ChannelEventModel::Extended(bytes)) == relay,
        relay.after(ChannelEventModel::Other) == relay,
        relay.after(ChannelEventModel::ExitStatus(status)) == (MasterRelay {
            code: exit_code(status),
            finished: false,
        }),
        forall|event: ChannelEventModel|
            (event is Eof || event is Close || event is Gone) ==> (#[trigger] relay.sends(event))
                == tagged_frame(0, seq![low_byte(relay.code)]) && relay.after(event).finished
                && relay.after(event).code == relay.code,
{
}

/// Once the channel has ended the master is silent, whatever still comes.
pub proof fn ended_masters_are_silent(relay: MasterRelay, event: ChannelEventModel)
    requires
        relay.finished,
    ensures
        relay.sends(event).len() == 0,
        relay.after(event) == relay,
{
}

/// A command is asked for in its own words, joined with blanks; without words
/// the master is asked for `true`. The master runs the text that it is sent, and
/// refuses what is not UTF-8; a client that goes away, and an empty command, run
/// nothing.
pub proof fn masters_run_what_they_are_sent(command: Seq<char>, words: Seq<Seq<char>>, b: Seq<u8>)
    requires
        command.len() > 0,
        command.last() != '\n',
        command.last() != '\r',
    ensures
        resume_line(Seq::empty()) == "true"@,
        words.len() > 0 ==> resume_line(words) == joined(words, " "@),
        resume_request_model(Some(encode_utf8(command))) == ResumeRequestModel::Exec(command),
        !valid_utf8(b) ==> resume_request_model(Some(b)) == ResumeRequestModel::NotUtf8,
        resume_request_model(None) == ResumeRequestModel::Nothing,
        resume_request_model(Some(encode_utf8(Seq::empty()))) == ResumeRequestModel::Empty,
{
    vstd::utf8::encode_utf8_valid_utf8(command);
    vstd::utf8::encode_utf8_decode_utf8(command);
    vstd::utf8::encode_utf8_valid_utf8(Seq::empty());
    vstd::utf8::encode_utf8_decode_utf8(Seq::empty());
}

/// `check` asks whether a master runs, `exit` and `stop` ask it to end, and
/// nothing else is a command; without a socket there is none to ask.
pub proof fn control_commands_are_told_apart(command: Seq<char>)
    ensures
        control_command_model(command, false) == Err::<ControlCommand, ControlError>(
            ControlError::NoSocket,
        ),
        control_command_model(command, true) == Ok::<ControlCommand, ControlError>(
            ControlCommand::Check,
        ) <==> command == "check"@,
        control_command_model(command, true) == Ok::<ControlCommand, ControlError>(
            ControlCommand::Terminate,
        ) <==> command == "exit"@ || command == "stop"@,
        control_command_model(command, true) == Err::<ControlCommand, ControlError>(
            ControlError::Unknown,
        ) <==> command != "check"@ && command != "exit"@ && command != "stop"@,
{
    reveal_strlit("check");
    reveal_strlit("exit");
    reveal_strlit("stop");
    assert("check"@.len() == 5 && "exit"@.len() == 4 && "stop"@.len() == 4);
}

/// Without a control socket an invocation is on its own. With one it serves
/// others just if it brings an identity file, a password or a password file, and
/// else asks a master; a passphrase alone changes nothing.
pub proof fn roles_follow_the_credentials(a: Cli, b: Cli, credentials: bool)
    ensures
        role_model(false, credentials) == ControlRole::Plain,
        role_model(true, true) == ControlRole::Master,
        role_model(true, false) == ControlRole::Resume,
        a.identity_file@.len() > 0 ==> brings_credentials(a),
        a.password is Some ==> brings_credentials(a),
        a.password_file is Some ==> brings_credentials(a),
        a.identity_file@.len() == 0 && a.password is None && a.password_file is None
            ==> !brings_credentials(a),
        b == (Cli { passphrase: b.passphrase, passphrase_file: b.passphrase_file, ..a })
            ==> brings_credentials(a) == brings_credentials(b),
{
}

/// A peer that sent nothing left in order; one that sent part of a head did not;
/// and a whole head states the length of what follows.
pub proof fn heads_are_judged(read: Seq<u8>, n: u32, rest: Seq<u8>)
    ensures
        header_model(Seq::empty()) == HeaderEnd::Clean,
        0 < read.len() < 4 ==> header_model(read) == HeaderEnd::CutShort,
        header_model(be32(n) + rest) == HeaderEnd::Len(n),
{
    be32_reads_back(n, rest);
}

/// A master ends on either signal and on nothing else, and serves whoever
/// connects. A client that finds no socket, is refused or is not allowed
/// connects directly; any other failure is an error.
pub proof fn masters_and_clients_carry_on()
    ensures
        forall|e: MasterEvent|
            #[trigger] loop_model(e) == MasterAction::Shutdown <==> e == MasterEvent::Interrupt || e
                == MasterEvent::Terminate,
        forall|e: MasterEvent|
            #[trigger] loop_model(e) == MasterAction::Serve <==> e == MasterEvent::Connected,
        connects_directly(SocketFailure::NotFound),
        connects_directly(SocketFailure::ConnectionRefused),
        connects_directly(SocketFailure::PermissionDenied),
        !connects_directly(SocketFailure::Other),
{
}

/// Line ends behind a command do not count.
pub proof fn line_ends_do_not_count(command: Seq<char>)
    requires
        command.len() > 0,
        command.last() != '\n',
        command.last() != '\r',
    ensures
        resume_request_model(Some(encode_utf8(command.push('\n')))) == ResumeRequestModel::Exec(
            command,
        ),
        resume_request_model(Some(encode_utf8(command.push('\r').push('\n'))))
            == ResumeRequestModel::Exec(command),
        resume_request_model(Some(encode_utf8(seq!['\n']))) == ResumeRequestModel::Empty,
{
    let one = command.push('\n');
    let two = command.push('\r').push('\n');
    let lone = seq!['\n'];
    vstd::utf8::encode_utf8_valid_utf8(one);
    vstd::utf8::encode_utf8_decode_utf8(one);
    vstd::utf8::encode_utf8_valid_utf8(two);
    vstd::utf8::encode_utf8_decode_utf8(two);
    vstd::utf8::encode_utf8_valid_utf8(lone);
    vstd::utf8::encode_utf8_decode_utf8(lone);
    reveal_with_fuel(strip_back, 3);
    assert(one.drop_last() =~= command);
    assert(two.drop_last() =~= command.push('\r'));
    assert(command.push('\r').drop_last() =~= command);
    assert(lone.drop_last() =~= Seq::<char>::empty());
}

} // verus!
