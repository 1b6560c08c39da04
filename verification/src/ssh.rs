//! The client side of an SSH session: host keys, authentication, exit codes.

use std::collections::HashMap;

use vstd::prelude::*;
use vstd::string::*;

use crate::number::{decimal, push_decimal};
use crate::relay::{ChannelEvent, ChannelEventModel};
use crate::text::{
    ascii_lower, begins_with, chars_of, eq_chars, is_white, is_whitespace, same_text, skip_chars,
    split_words, starts_with, string_of, take_chars, texts, to_ascii_lower, trim, trim_front,
    trim_start, trimmed, words,
};
use crate::types::ForwardSpec;

verus! {

broadcast use {vstd::string::group_string_axioms, vstd::std_specs::hash::group_hash_axioms};

// ---------------------------------------------------------------------
// Host keys
// ---------------------------------------------------------------------

/// How the key of a server is judged.
pub struct HostKeyPolicy {
    /// Take any key, without looking.
    pub accept_all: bool,
    /// Refuse keys that the known-hosts file does not confirm.
    pub strict: bool,
    /// The known-hosts file.
    pub known_hosts_path: Option<String>,
}

/// What the known-hosts file says of a key.
#[derive(Clone, Copy, PartialEq, Eq, Structural, Debug)]
pub enum KnownHosts {
    /// The key is recorded for the host.
    Match,
    /// No record of the host has this kind of key.
    NoMatch,
    /// Another key of this kind is recorded for the host.
    Changed,
    /// The file could not be read.
    Failed,
}

impl HostKeyPolicy {
    /// The file to consult: none where every key is taken, and none where the
    /// path is the null device.
    pub open spec fn consults(&self) -> Option<Seq<char>> {
        match self.known_hosts_path {
            Some(p) => if self.accept_all || p@ == "/dev/null"@ || p@ == "nul"@ {
                None
            } else {
                Some(p@)
            },
            None => None,
        }
    }

    /// Whether a key is taken, given what the consulted file says of it: a
    /// key that is recorded always, one that contradicts a record never, and
    /// any other unless the policy is strict.
    pub open spec fn accepts(&self, found: Option<KnownHosts>) -> bool {
        ||| self.accept_all
        ||| found == Some(KnownHosts::Match)
        ||| !self.strict && found != Some(KnownHosts::Changed)
    }

    /// Whether a key that is taken is then recorded: where it is new to the
    /// consulted file.
    pub open spec fn records(&self, found: Option<KnownHosts>) -> bool {
        !self.accept_all && !self.strict && found == Some(KnownHosts::NoMatch)
    }

    /// The known-hosts file to consult for a key; see [`Self::consults`].
    pub fn lookup_path(&self) -> (r: Option<&str>)
        ensures
            match r {
                Some(p) => self.consults() == Some(p@),
                None => self.consults() is None,
            },
    {
        match &self.known_hosts_path {
            Some(p) => {
                if self.accept_all || same_text(p.as_str(), "/dev/null") || same_text(
                    p.as_str(),
                    "nul",
                ) {
                    None
                } else {
                    Some(p.as_str())
                }
            },
            None => None,
        }
    }

    /// Judges the key of a server; `found` is what the consulted file says,
    /// if one was consulted.
    pub fn check_server_key(&self, found: Option<KnownHosts>) -> (r: bool)
        ensures
            r == self.accepts(found),
    {
        if self.accept_all {
            return true;
        }
        match found {
            Some(KnownHosts::Match) => true,
            Some(KnownHosts::NoMatch) => !self.strict,
            Some(KnownHosts::Changed) => false,
            Some(KnownHosts::Failed) => !self.strict,
            None => !self.strict,
        }
    }

    /// Whether a key that was taken is added to the consulted file; see
    /// [`Self::records`].
    pub fn should_record(&self, found: Option<KnownHosts>) -> (r: bool)
        ensures
            r == self.records(found),
    {
        match found {
            Some(KnownHosts::NoMatch) => !self.accept_all && !self.strict,
            _ => false,
        }
    }
}

// ---------------------------------------------------------------------
// Remote forwards
// ---------------------------------------------------------------------

/// The forwards by bind port; of two with the same port the later one.
pub open spec fn forward_map(specs: Seq<ForwardSpec>) -> Map<u16, ForwardSpec>
    decreases specs.len(),
{
    if specs.len() == 0 {
        Map::empty()
    } else {
        forward_map(specs.drop_last()).insert(specs.last().bind_port, specs.last())
    }
}

/// Collects the remote forwards by bind port; see [`forward_map`].
pub fn remote_forward_map(specs: &Vec<ForwardSpec>) -> (r: HashMap<u16, ForwardSpec>)
    ensures
        r@ == forward_map(specs@),
{
    let mut map: HashMap<u16, ForwardSpec> = HashMap::new();
    let mut i: usize = 0;
    assert(map@ =~= forward_map(specs@.take(0)));
    while i < specs.len()
        invariant
            i <= specs@.len(),
            map@ == forward_map(specs@.take(i as int)),
        decreases specs@.len() - i,
    {
        proof {
            assert(specs@.take(i + 1).drop_last() =~= specs@.take(i as int));
            assert(specs@.take(i + 1).last() == specs@[i as int]);
        }
        map.insert(specs[i].bind_port, specs[i].clone());
        i = i + 1;
    }
    assert(specs@.take(specs@.len() as int) =~= specs@);
    map
}

/// A host and a port as the text of an endpoint.
pub open spec fn endpoint(host: Seq<char>, port: u16) -> Seq<char> {
    host + ":"@ + decimal(port as nat)
}

/// Computes [`endpoint`].
pub fn endpoint_text(host: &str, port: u16) -> (r: String)
    ensures
        r@ == endpoint(host@, port),
{
    let mut out = host.to_owned();
    out.append(":");
    push_decimal(&mut out, port as u64);
    out
}

/// Where a connection to a forwarded port of the server goes, if that port
/// is forwarded. The port is taken modulo 2^16.
pub open spec fn forward_destination(map: Map<u16, ForwardSpec>, connected_port: u32) -> Option<
    Seq<char>,
> {
    let port = (connected_port % 0x1_0000) as u16;
    if map.dom().contains(port) {
        Some(endpoint(map[port].target_host@, map[port].target_port))
    } else {
        None
    }
}

/// The endpoint to dial for a connection that the server forwards; see
/// [`forward_destination`].
pub fn forwarded_target(map: &HashMap<u16, ForwardSpec>, connected_port: u32) -> (r: Option<String>)
    ensures
        crate::text::opt_text(r) == forward_destination(map@, connected_port),
{
    let port: u16 = (connected_port % 0x1_0000) as u16;
    match map.get(&port) {
        Some(spec) => Some(endpoint_text(spec.target_host.as_str(), spec.target_port)),
        None => None,
    }
}

// ---------------------------------------------------------------------
// The agent on Windows
// ---------------------------------------------------------------------

/// The name of a named pipe; `None` for any other path.
pub open spec fn pipe_name(path: Seq<char>) -> Option<Seq<char>> {
    if begins_with(path, "\\\\.\\pipe\\"@) {
        Some(path.skip(9))
    } else {
        None
    }
}

/// The name of the pipe at which an agent listens; see [`pipe_name`].
pub fn agent_pipe_name(path: &str) -> (r: Option<String>)
    ensures
        crate::text::opt_text(r) == pipe_name(path@),
{
    proof {
        reveal_strlit("\\\\.\\pipe\\");
    }
    let all = chars_of(path);
    let prefix = chars_of("\\\\.\\pipe\\");
    if starts_with(all.as_slice(), prefix.as_slice()) {
        Some(string_of(skip_chars(all.as_slice(), 9)))
    } else {
        None
    }
}

// ---------------------------------------------------------------------
// Authentication
// ---------------------------------------------------------------------

/// What can be offered to the server.
#[derive(Clone, Copy, PartialEq, Eq, Structural, Debug)]
pub struct AuthPlan {
    /// How many identity files there are.
    pub keys: usize,
    /// Whether there is a password.
    pub password: bool,
}

/// The hash that goes with a key.
#[derive(Clone, Copy, PartialEq, Eq, Structural, Debug)]
pub enum KeyHash {
    Sha512,
    Sha256,
    /// The algorithm's own, which for RSA is the legacy one.
    Legacy,
}

/// What is done next.
#[derive(Clone, Copy, PartialEq, Eq, Structural, Debug)]
pub enum AuthStage {
    /// Load this identity file.
    Load(usize),
    /// Offer this key; whether it is an RSA key; the hash.
    Key(usize, bool, KeyHash),
    /// Ask for the method "none".
    NoneMethod,
    /// Offer the password.
    Password,
    /// The server let us in.
    Accepted,
    /// There is nothing left to offer.
    Failed,
}

impl AuthPlan {
    /// What follows once the identity files before `i` are used up: the
    /// password where there is one, else the method "none".
    pub open spec fn from_key(self, i: int) -> AuthStage {
        if i < self.keys {
            AuthStage::Load(i as usize)
        } else if self.password {
            AuthStage::Password
        } else {
            AuthStage::NoneMethod
        }
    }

    /// What follows a loaded key: an RSA key is offered with its strongest
    /// hash first. A file that cannot be loaded is passed over.
    pub open spec fn loaded(self, i: usize, rsa: Option<bool>) -> AuthStage {
        match rsa {
            Some(true) => AuthStage::Key(i, true, KeyHash::Sha512),
            Some(false) => AuthStage::Key(i, false, KeyHash::Legacy),
            None => self.from_key(i + 1),
        }
    }

    /// What follows the answer to an offer. After a refused password the
    /// method "none" is the last resort.
    pub open spec fn answered(self, stage: AuthStage, accepted: bool) -> AuthStage {
        if accepted {
            AuthStage::Accepted
        } else {
            match stage {
                AuthStage::Key(i, true, KeyHash::Sha512) => AuthStage::Key(
                    i,
                    true,
                    KeyHash::Sha256,
                ),
                AuthStage::Key(i, true, KeyHash::Sha256) => AuthStage::Key(
                    i,
                    true,
                    KeyHash::Legacy,
                ),
                AuthStage::Key(i, _, _) => self.from_key(i + 1),
                AuthStage::Password => AuthStage::NoneMethod,
                _ => AuthStage::Failed,
            }
        }
    }

    fn next_key(self, used: usize) -> (r: AuthStage)
        requires
            used < self.keys,
        ensures
            r == self.from_key(used + 1),
    {
        if used + 1 < self.keys {
            AuthStage::Load(used + 1)
        } else if self.password {
            AuthStage::Password
        } else {
            AuthStage::NoneMethod
        }
    }

    /// The first thing to do.
    pub fn start(self) -> (r: AuthStage)
        ensures
            r == self.from_key(0),
    {
        if 0 < self.keys {
            AuthStage::Load(0)
        } else if self.password {
            AuthStage::Password
        } else {
            AuthStage::NoneMethod
        }
    }

    /// Goes on after identity file `i` was loaded (`Some`, with whether it is
    /// an RSA key) or could not be loaded (`None`).
    pub fn key_loaded(self, i: usize, rsa: Option<bool>) -> (r: AuthStage)
        requires
            i < self.keys,
        ensures
            r == self.loaded(i, rsa),
    {
        match rsa {
            Some(true) => AuthStage::Key(i, true, KeyHash::Sha512),
            Some(false) => AuthStage::Key(i, false, KeyHash::Legacy),
            None => self.next_key(i),
        }
    }

    /// Goes on after the server answered an offer.
    pub fn offer_answered(self, stage: AuthStage, accepted: bool) -> (r: AuthStage)
        requires
            stage matches AuthStage::Key(i, _, _) ==> i < self.keys,
        ensures
            r == self.answered(stage, accepted),
    {
        if accepted {
            return AuthStage::Accepted;
        }
        match stage {
            AuthStage::Key(i, true, KeyHash::Sha512) => AuthStage::Key(i, true, KeyHash::Sha256),
            AuthStage::Key(i, true, KeyHash::Sha256) => AuthStage::Key(i, true, KeyHash::Legacy),
            AuthStage::Key(i, _, _) => self.next_key(i),
            AuthStage::Password => AuthStage::NoneMethod,
            _ => AuthStage::Failed,
        }
    }
}

// ---------------------------------------------------------------------
// The session reader
// ---------------------------------------------------------------------

/// An exit status as a process exit code: the same 32 bits.
pub open spec fn exit_code(status: u32) -> i32 {
    if status < 0x8000_0000 {
        status as i32
    } else {
        (status - 0x1_0000_0000) as i32
    }
}

/// Computes [`exit_code`].
pub fn to_exit_code(status: u32) -> (r: i32)
    ensures
        r == exit_code(status),
{
    if status < 0x8000_0000 {
        status as i32
    } else {
        (status as i64 - 0x1_0000_0000) as i32
    }
}

/// How far the reader of a session has come.
#[derive(Clone, Copy, PartialEq, Eq, Structural, Debug)]
pub enum ReaderPhase {
    /// Output is passed on.
    Reading,
    /// The remote side is done; only an exit status is still awaited.
    Draining,
    /// The session is over.
    Finished,
}

/// The reader of a session and the exit code it knows of.
#[derive(Clone, Copy, PartialEq, Eq, Structural, Debug)]
pub struct SessionReader {
    pub phase: ReaderPhase,
    pub code: i32,
}

/// What the reader does with an event.
pub enum SessionOutput {
    Stdout(Vec<u8>),
    Stderr(Vec<u8>),
    Nothing,
}

/// What the reader does with an event, over byte sequences.
pub enum SessionOutputModel {
    Stdout(Seq<u8>),
    Stderr(Seq<u8>),
    Nothing,
}

impl View for SessionOutput {
    type V = SessionOutputModel;

    open spec fn view(&self) -> SessionOutputModel {
        match self {
            SessionOutput::Stdout(b) => SessionOutputModel::Stdout(b@),
            SessionOutput::Stderr(b) => SessionOutputModel::Stderr(b@),
            SessionOutput::Nothing => SessionOutputModel::Nothing,
        }
    }
}

/// The seconds for which an exit status is awaited after the remote side is
/// done.
pub const DRAIN_SECONDS: u64 = 5;

impl SessionReader {
    /// The reader after an event. An exit status is taken while reading,
    /// which it ends, and while draining, which goes on until the channel is
    /// gone.
    pub open spec fn after(self, event: ChannelEventModel) -> SessionReader {
        match self.phase {
            ReaderPhase::Finished => self,
            ReaderPhase::Reading => match event {
                ChannelEventModel::Eof | ChannelEventModel::Close => SessionReader {
                    phase: ReaderPhase::Draining,
                    ..self
                },
                ChannelEventModel::Gone => SessionReader { phase: ReaderPhase::Finished, ..self },
                ChannelEventModel::ExitStatus(s) => SessionReader {
                    phase: ReaderPhase::Finished,
                    code: exit_code(s),
                },
                _ => self,
            },
            ReaderPhase::Draining => match event {
                ChannelEventModel::Gone => SessionReader { phase: ReaderPhase::Finished, ..self },
                ChannelEventModel::ExitStatus(s) => SessionReader { code: exit_code(s), ..self },
                _ => self,
            },
        }
    }

    /// What is passed on for an event: output, while reading.
    pub open spec fn passes_on(self, event: ChannelEventModel) -> SessionOutputModel {
        if self.phase == ReaderPhase::Reading {
            match event {
                ChannelEventModel::Data(b) => SessionOutputModel::Stdout(b),
                ChannelEventModel::Extended(b) => SessionOutputModel::Stderr(b),
                _ => SessionOutputModel::Nothing,
            }
        } else {
            SessionOutputModel::Nothing
        }
    }

    /// A reader at the start of a session.
    pub fn new() -> (r: Self)
        ensures
            r == (SessionReader { phase: ReaderPhase::Reading, code: 0 }),
    {
        SessionReader { phase: ReaderPhase::Reading, code: 0 }
    }

    /// Takes one event.
    pub fn step(&mut self, event: ChannelEvent) -> (r: SessionOutput)
        ensures
            *final(self) == old(self).after(event@),
            r@ == old(self).passes_on(event@),
    {
        match self.phase {
            ReaderPhase::Finished => SessionOutput::Nothing,
            ReaderPhase::Reading => match event {
                ChannelEvent::Data(b) => SessionOutput::Stdout(b),
                ChannelEvent::Extended(b) => SessionOutput::Stderr(b),
                ChannelEvent::Eof => {
                    self.phase = ReaderPhase::Draining;
                    SessionOutput::Nothing
                },
                ChannelEvent::Close => {
                    self.phase = ReaderPhase::Draining;
                    SessionOutput::Nothing
                },
                ChannelEvent::Gone => {
                    self.phase = ReaderPhase::Finished;
                    SessionOutput::Nothing
                },
                ChannelEvent::ExitStatus(s) => {
                    self.code = to_exit_code(s);
                    self.phase = ReaderPhase::Finished;
                    SessionOutput::Nothing
                },
                ChannelEvent::Other => SessionOutput::Nothing,
            },
            ReaderPhase::Draining => match event {
                ChannelEvent::Gone => {
                    self.phase = ReaderPhase::Finished;
                    SessionOutput::Nothing
                },
                ChannelEvent::ExitStatus(s) => {
                    self.code = to_exit_code(s);
                    SessionOutput::Nothing
                },
                _ => SessionOutput::Nothing,
            },
        }
    }

    /// Ends the session because the time for draining is over.
    pub fn time_out(&mut self)
        ensures
            final(self).phase == ReaderPhase::Finished,
            final(self).code == old(self).code,
    {
        self.phase = ReaderPhase::Finished;
    }
}

/// Exit statuses as they arrive, by channel number.
pub struct ExitStatuses {
    pub statuses: HashMap<u32, u32>,
}

impl View for ExitStatuses {
    type V = Map<u32, u32>;

    open spec fn view(&self) -> Map<u32, u32> {
        self.statuses@
    }
}

/// The exit code of a session: the status that was recorded for its channel,
/// else the code that the reader knows of.
pub open spec fn session_code(read: i32, recorded: Option<u32>) -> i32 {
    match recorded {
        Some(s) => exit_code(s),
        None => read,
    }
}

impl ExitStatuses {
    /// No statuses.
    pub fn new() -> (r: Self)
        ensures
            r@ == Map::<u32, u32>::empty(),
    {
        ExitStatuses { statuses: HashMap::new() }
    }

    /// Records the status of a channel.
    pub fn record_exit_status(&mut self, channel: u32, status: u32)
        ensures
            final(self)@ == old(self)@.insert(channel, status),
    {
        self.statuses.insert(channel, status);
    }

    /// The exit code of the session on a channel, whose record is taken out;
    /// see [`session_code`].
    pub fn resolve(&mut self, channel: u32, read: i32) -> (r: i32)
        ensures
            r == session_code(
                read,
                if old(self)@.dom().contains(channel) {
                    Some(old(self)@[channel])
                } else {
                    None
                },
            ),
            final(self)@ == old(self)@.remove(channel),
    {
        match self.statuses.remove(&channel) {
            Some(s) => to_exit_code(s),
            None => {
                assert(self@ =~= old(self)@.remove(channel));
                read
            },
        }
    }
}

// ---------------------------------------------------------------------
// Environment
// ---------------------------------------------------------------------

/// The locale variables: `LANG`, `LANGUAGE` and all that begin with `LC_`.
pub open spec fn is_locale_name(name: Seq<char>) -> bool {
    name == "LANG"@ || name == "LANGUAGE"@ || begins_with(name, "LC_"@)
}

/// Whether a local variable belongs to the locale, which is sent to the remote
/// side in any case.
pub fn should_forward_locale_env(name: &str) -> (r: bool)
    ensures
        r == is_locale_name(name@),
{
    let all = chars_of(name);
    let prefix = chars_of("LC_");
    same_text(name, "LANG") || same_text(name, "LANGUAGE") || starts_with(
        all.as_slice(),
        prefix.as_slice(),
    )
}

/// How many characters of an option stand before the first equals sign or white
/// space.
pub open spec fn key_len(option: Seq<char>) -> nat
    decreases option.len(),
{
    if option.len() == 0 || option[0] == '=' || is_white(option[0]) {
        0
    } else {
        1 + key_len(option.skip(1))
    }
}

/// What stands behind the key of an option, an equals sign left out.
pub open spec fn option_rest(option: Seq<char>) -> Seq<char> {
    let rest = trim_front(option.skip(key_len(option) as int));
    if rest.len() > 0 && rest[0] == '=' {
        rest.skip(1)
    } else {
        rest
    }
}

/// The variables that an option asks to send: the words of `SendEnv`, which
/// takes them behind white space or an equals sign.
pub open spec fn asked_by(option: Seq<char>) -> Seq<Seq<char>> {
    let option = trimmed(option);
    if ascii_lower(option.take(key_len(option) as int)) == "sendenv"@ {
        words(option_rest(option))
    } else {
        Seq::empty()
    }
}

/// The variables that options ask to send, in order.
pub open spec fn asked_names(options: Seq<Seq<char>>) -> Seq<Seq<char>>
    decreases options.len(),
{
    if options.len() == 0 {
        Seq::empty()
    } else {
        asked_names(options.drop_last()) + asked_by(options.last())
    }
}

fn asked_words(option: &str) -> (r: Vec<String>)
    ensures
        texts(r@) == asked_by(option@),
{
    let all = chars_of(option);
    let option = trim(all.as_slice());
    let mut n: usize = 0;
    assert(option@.skip(0) =~= option@);
    while n < option.len() && option[n] != '=' && !is_whitespace(option[n])
        invariant
            n <= option@.len(),
            key_len(option@) == n + key_len(option@.skip(n as int)),
        decreases option@.len() - n,
    {
        assert(option@.skip(n as int).skip(1) =~= option@.skip(n + 1));
        n = n + 1;
    }
    let key = to_ascii_lower(take_chars(option, n));
    let wanted = chars_of("sendenv");
    if !eq_chars(key.as_slice(), wanted.as_slice()) {
        let none: Vec<String> = Vec::new();
        assert(texts(none@) =~= Seq::<Seq<char>>::empty());
        return none;
    }
    let rest = trim_start(skip_chars(option, n));
    if rest.len() > 0 && rest[0] == '=' {
        split_words(skip_chars(rest, 1))
    } else {
        split_words(rest)
    }
}

/// The variables that `-o SendEnv` asks to send; see [`asked_by`].
pub fn sent_env_names(options: &[String]) -> (r: Vec<String>)
    ensures
        texts(r@) == asked_names(texts(options@)),
{
    let ghost all = texts(options@);
    let mut out: Vec<String> = Vec::new();
    let mut i: usize = 0;
    assert(texts(out@) =~= asked_names(all.take(0)));
    while i < options.len()
        invariant
            i <= options@.len(),
            all == texts(options@),
            texts(out@) == asked_names(all.take(i as int)),
        decreases options@.len() - i,
    {
        let mut more = asked_words(options[i].as_str());
        let ghost had = out@;
        let ghost next = more@;
        proof {
            assert(all.take(i + 1).drop_last() =~= all.take(i as int));
            assert(all.take(i + 1).last() == options@[i as int]@);
        }
        out.append(&mut more);
        assert(texts(out@) =~= texts(had) + texts(next));
        i = i + 1;
    }
    assert(all.take(all.len() as int) =~= all);
    out
}

/// Whether a local variable is sent to the remote side: the locale always is,
/// others only where they are asked for by name.
pub fn should_send_env(name: &str, asked: &[String]) -> (r: bool)
    ensures
        r == (is_locale_name(name@) || texts(asked@).contains(name@)),
{
    if should_forward_locale_env(name) {
        return true;
    }
    let ghost all = texts(asked@);
    let mut i: usize = 0;
    while i < asked.len()
        invariant
            i <= asked@.len(),
            all == texts(asked@),
            forall|j: int| 0 <= j < i ==> all[j] != name@,
        decreases asked@.len() - i,
    {
        assert(all[i as int] == asked@[i as int]@);
        if same_text(asked[i].as_str(), name) {
            return true;
        }
        i = i + 1;
    }
    false
}

// ---------------------------------------------------------------------
// Laws
// ---------------------------------------------------------------------

/// A strict policy takes no key that the known-hosts file does not confirm,
/// unless it takes every key.
pub proof fn strict_takes_known_keys_only(policy: HostKeyPolicy, found: Option<KnownHosts>)
    requires
        policy.strict,
        !policy.accept_all,
    ensures
        policy.accepts(found) <==> found == Some(KnownHosts::Match),
{
}

/// A policy that takes every key consults no file and records nothing,
/// whatever else it says.
pub proof fn accept_all_never_looks(policy: HostKeyPolicy, found: Option<KnownHosts>)
    requires
        policy.accept_all,
    ensures
        policy.consults() is None,
        policy.accepts(found),
        !policy.records(found),
{
}

/// A key that contradicts a record is refused by every policy but one that
/// takes every key; only keys that are taken are recorded.
pub proof fn changed_keys_are_refused(policy: HostKeyPolicy, found: Option<KnownHosts>)
    ensures
        !policy.accept_all ==> !policy.accepts(Some(KnownHosts::Changed)),
        policy.records(found) ==> policy.accepts(found),
{
}

/// Of the remote forwards with one bind port, the last is the one that
/// connections to that port follow.
pub proof fn last_forward_wins(specs: Seq<ForwardSpec>, i: int)
    requires
        0 <= i < specs.len(),
        forall|j: int| i < j < specs.len() ==> (#[trigger] specs[j]).bind_port != specs[i].bind_port,
    ensures
        forward_map(specs).dom().contains(specs[i].bind_port),
        forward_map(specs)[specs[i].bind_port] == specs[i],
    decreases specs.len(),
{
    if i < specs.len() - 1 {
        let front = specs.drop_last();
        assert forall|j: int| i < j < front.len() implies (#[trigger] front[j]).bind_port
            != front[i].bind_port by {
            assert(front[j] == specs[j]);
        }
        last_forward_wins(front, i);
        assert(specs.last() == specs[specs.len() - 1]);
    }
}

/// The reader after a run of events.
pub open spec fn read_all(r: SessionReader, events: Seq<ChannelEventModel>) -> SessionReader
    decreases events.len(),
{
    if events.len() == 0 {
        r
    } else {
        read_all(r.after(events[0]), events.skip(1))
    }
}

proof fn code_is_kept(r: SessionReader, events: Seq<ChannelEventModel>)
    requires
        forall|j: int| 0 <= j < events.len() ==> !(#[trigger] events[j] is ExitStatus),
    ensures
        read_all(r, events).code == r.code,
    decreases events.len(),
{
    if events.len() > 0 {
        assert(!(events[0] is ExitStatus));
        assert forall|j: int| 0 <= j < events.skip(1).len() implies !(#[trigger] events.skip(
            1,
        )[j] is ExitStatus) by {
            assert(events.skip(1)[j] == events[j + 1]);
        }
        code_is_kept(r.after(events[0]), events.skip(1));
    }
}

/// The exit status is not lost whether it comes before or after the end of
/// the output and the close of the channel: as long as the channel is not
/// gone when it arrives, it becomes the exit code.
pub proof fn exit_status_survives_close(
    r: SessionReader,
    events: Seq<ChannelEventModel>,
    k: int,
    status: u32,
)
    requires
        r.phase != ReaderPhase::Finished,
        0 <= k < events.len(),
        events[k] == ChannelEventModel::ExitStatus(status),
        forall|j: int|
            0 <= j < k ==> !(#[trigger] events[j] is ExitStatus) && !(events[j] is Gone),
        forall|j: int| k < j < events.len() ==> !(#[trigger] events[j] is ExitStatus),
    ensures
        read_all(r, events).code == exit_code(status),
    decreases events.len(),
{
    let rest = events.skip(1);
    if k == 0 {
        assert forall|j: int| 0 <= j < rest.len() implies !(#[trigger] rest[j] is ExitStatus) by {
            assert(rest[j] == events[j + 1]);
        }
        code_is_kept(r.after(events[0]), rest);
    } else {
        assert(!(events[0] is ExitStatus) && !(events[0] is Gone));
        assert forall|j: int| 0 <= j < k - 1 implies !(#[trigger] rest[j] is ExitStatus) && !(
        rest[j] is Gone) by {
            assert(rest[j] == events[j + 1]);
        }
        assert forall|j: int| k - 1 < j < rest.len() implies !(#[trigger] rest[j] is ExitStatus) by {
            assert(rest[j] == events[j + 1]);
        }
        exit_status_survives_close(r.after(events[0]), rest, k - 1, status);
    }
}

/// What a run of events writes to the standard output.
pub open spec fn session_stdout(r: SessionReader, events: Seq<ChannelEventModel>) -> Seq<u8>
    decreases events.len(),
{
    if events.len() == 0 {
        Seq::empty()
    } else {
        let rest = session_stdout(r.after(events[0]), events.skip(1));
        match r.passes_on(events[0]) {
            SessionOutputModel::Stdout(b) => b + rest,
            _ => rest,
        }
    }
}

/// The data bytes of all events, in order.
pub open spec fn all_data(events: Seq<ChannelEventModel>) -> Seq<u8>
    decreases events.len(),
{
    if events.len() == 0 {
        Seq::empty()
    } else {
        match events[0] {
            ChannelEventModel::Data(b) => b + all_data(events.skip(1)),
            _ => all_data(events.skip(1)),
        }
    }
}

/// Until the remote side is done or reports its exit status, the standard
/// output gets every data byte once, in order, and nothing else.
pub proof fn session_output_is_faithful(r: SessionReader, events: Seq<ChannelEventModel>)
    requires
        r.phase == ReaderPhase::Reading,
        forall|i: int|
            0 <= i < events.len() ==> !crate::relay::ends_channel(#[trigger] events[i]) && !(
            events[i] is ExitStatus),
    ensures
        session_stdout(r, events) == all_data(events),
        read_all(r, events) == r,
    decreases events.len(),
{
    if events.len() > 0 {
        let rest = events.skip(1);
        assert(!crate::relay::ends_channel(events[0]) && !(events[0] is ExitStatus));
        assert forall|i: int| 0 <= i < rest.len() implies !crate::relay::ends_channel(
            #[trigger] rest[i],
        ) && !(rest[i] is ExitStatus) by {
            assert(rest[i] == events[i + 1]);
        }
        session_output_is_faithful(r, rest);
    }
}

/// The offers made with one identity file.
pub open spec fn key_offers(i: usize, rsa: Option<bool>) -> Seq<AuthStage> {
    match rsa {
        Some(true) => seq![
            AuthStage::Key(i, true, KeyHash::Sha512),
            AuthStage::Key(i, true, KeyHash::Sha256),
            AuthStage::Key(i, true, KeyHash::Legacy),
        ],
        Some(false) => seq![AuthStage::Key(i, false, KeyHash::Legacy)],
        None => Seq::empty(),
    }
}

/// The offers made after the identity files.
pub open spec fn other_offers(plan: AuthPlan) -> Seq<AuthStage> {
    if plan.password {
        seq![AuthStage::Password, AuthStage::NoneMethod]
    } else {
        seq![AuthStage::NoneMethod]
    }
}

/// Every offer from identity file `i` on, in the order in which they are
/// made; `loads` says of each file whether it can be loaded, and as what.
pub open spec fn offers_from(plan: AuthPlan, loads: Seq<Option<bool>>, i: int) -> Seq<AuthStage>
    decreases plan.keys - i,
{
    if 0 <= i < plan.keys {
        key_offers(i as usize, loads[i]) + offers_from(plan, loads, i + 1)
    } else {
        other_offers(plan)
    }
}

/// The offers up to the first that is accepted, and whether one is.
pub open spec fn until_accepted(
    offers: Seq<AuthStage>,
    accepts: spec_fn(AuthStage) -> bool,
) -> (Seq<AuthStage>, bool)
    decreases offers.len(),
{
    if offers.len() == 0 {
        (Seq::empty(), false)
    } else if accepts(offers[0]) {
        (seq![offers[0]], true)
    } else {
        let (more, ok) = until_accepted(offers.skip(1), accepts);
        (seq![offers[0]] + more, ok)
    }
}

/// How much is left to do.
pub open spec fn auth_rank(plan: AuthPlan, stage: AuthStage) -> int {
    match stage {
        AuthStage::Load(i) => 4 * (plan.keys - i) + 2,
        AuthStage::Key(i, _, KeyHash::Sha512) => 4 * (plan.keys - i) + 1,
        AuthStage::Key(i, _, KeyHash::Sha256) => 4 * (plan.keys - i),
        AuthStage::Key(i, _, KeyHash::Legacy) => 4 * (plan.keys - i) - 1,
        AuthStage::Password => 2,
        AuthStage::NoneMethod => 1,
        AuthStage::Accepted => 0,
        AuthStage::Failed => 0,
    }
}

/// The offers made from a stage on against a server, and where that ends.
pub open spec fn auth_run(
    plan: AuthPlan,
    loads: Seq<Option<bool>>,
    accepts: spec_fn(AuthStage) -> bool,
    stage: AuthStage,
) -> (Seq<AuthStage>, AuthStage)
    decreases auth_rank(plan, stage),
{
    match stage {
        AuthStage::Accepted => (Seq::empty(), stage),
        AuthStage::Failed => (Seq::empty(), stage),
        AuthStage::Load(i) => if i < plan.keys {
            auth_run(plan, loads, accepts, plan.loaded(i, loads[i as int]))
        } else {
            (Seq::empty(), stage)
        },
        AuthStage::Key(i, _, _) => if i < plan.keys {
            let (more, end) = auth_run(
                plan,
                loads,
                accepts,
                plan.answered(stage, accepts(stage)),
            );
            (seq![stage] + more, end)
        } else {
            (Seq::empty(), stage)
        },
        _ => {
            let (more, end) = auth_run(
                plan,
                loads,
                accepts,
                plan.answered(stage, accepts(stage)),
            );
            (seq![stage] + more, end)
        },
    }
}

spec fn offers_left(plan: AuthPlan, loads: Seq<Option<bool>>, stage: AuthStage) -> Seq<AuthStage> {
    match stage {
        AuthStage::Load(i) => offers_from(plan, loads, i as int),
        AuthStage::Key(i, true, KeyHash::Sha512) => key_offers(i, Some(true)) + offers_from(
            plan,
            loads,
            i + 1,
        ),
        AuthStage::Key(i, true, KeyHash::Sha256) => key_offers(i, Some(true)).skip(1)
            + offers_from(plan, loads, i + 1),
        AuthStage::Key(i, _, _) => seq![stage] + offers_from(plan, loads, i + 1),
        AuthStage::Password => seq![AuthStage::Password, AuthStage::NoneMethod],
        AuthStage::NoneMethod => seq![AuthStage::NoneMethod],
        _ => Seq::empty(),
    }
}

proof fn offers_left_from_key(plan: AuthPlan, loads: Seq<Option<bool>>, i: int)
    requires
        0 <= i <= plan.keys,
    ensures
        offers_left(plan, loads, plan.from_key(i)) == offers_from(plan, loads, i),
{
    if i == plan.keys {
        assert(offers_left(plan, loads, plan.from_key(i)) =~= other_offers(plan));
    }
}

proof fn auth_run_follows(
    plan: AuthPlan,
    loads: Seq<Option<bool>>,
    accepts: spec_fn(AuthStage) -> bool,
    stage: AuthStage,
)
    requires
        stage matches AuthStage::Load(i) ==> i < plan.keys,
        stage matches AuthStage::Key(i, rsa, hash) ==> i < plan.keys && (rsa || hash
            == KeyHash::Legacy),
        stage != AuthStage::Accepted,
    ensures
        ({
            let (made, ok) = until_accepted(offers_left(plan, loads, stage), accepts);
            auth_run(plan, loads, accepts, stage) == (
                made,
                if ok {
                    AuthStage::Accepted
                } else {
                    AuthStage::Failed
                },
            )
        }),
    decreases auth_rank(plan, stage),
{
    let left = offers_left(plan, loads, stage);
    match stage {
        AuthStage::Failed => {},
        AuthStage::Load(i) => {
            let next = plan.loaded(i, loads[i as int]);
            offers_left_from_key(plan, loads, i + 1);
            assert(offers_left(plan, loads, next) =~= left);
            auth_run_follows(plan, loads, accepts, next);
        },
        _ => {
            assert(left[0] == stage);
            let next = plan.answered(stage, accepts(stage));
            if !accepts(stage) {
                if let AuthStage::Key(i, _, _) = stage {
                    offers_left_from_key(plan, loads, i + 1);
                }
                assert(left.skip(1) =~= offers_left(plan, loads, next));
                auth_run_follows(plan, loads, accepts, next);
            } else {
                assert(auth_run(plan, loads, accepts, AuthStage::Accepted) == (
                    Seq::<AuthStage>::empty(),
                    AuthStage::Accepted,
                ));
                assert(seq![stage] + Seq::<AuthStage>::empty() =~= seq![stage]);
            }
        },
    }
}

/// A server that refuses every key and the password and takes the method
/// "none" lets the user in.
pub proof fn none_is_the_last_resort(
    plan: AuthPlan,
    loads: Seq<Option<bool>>,
    accepts: spec_fn(AuthStage) -> bool,
)
    requires
        loads.len() == plan.keys,
        accepts(AuthStage::NoneMethod),
    ensures
        auth_run(plan, loads, accepts, plan.from_key(0)).1 == AuthStage::Accepted,
{
    offers_come_in_order(plan, loads, accepts);
    offers_end_with_none(plan, loads, 0);
    accepted_if_any(
        offers_from(plan, loads, 0),
        accepts,
        offers_from(plan, loads, 0).len() - 1,
    );
}

proof fn offers_end_with_none(plan: AuthPlan, loads: Seq<Option<bool>>, i: int)
    requires
        0 <= i,
    ensures
        offers_from(plan, loads, i).len() > 0,
        offers_from(plan, loads, i).last() == AuthStage::NoneMethod,
    decreases plan.keys - i,
{
    if i < plan.keys {
        offers_end_with_none(plan, loads, i + 1);
    }
}

proof fn accepted_if_any(
    offers: Seq<AuthStage>,
    accepts: spec_fn(AuthStage) -> bool,
    k: int,
)
    requires
        0 <= k < offers.len(),
        accepts(offers[k]),
    ensures
        until_accepted(offers, accepts).1,
    decreases offers.len(),
{
    if !accepts(offers[0]) {
        assert(offers.skip(1)[k - 1] == offers[k]);
        accepted_if_any(offers.skip(1), accepts, k - 1);
    }
}

/// Authentication makes its offers in a fixed order: each identity file in
/// turn, an RSA key with SHA-512, SHA-256 and at last without; then the
/// password, where there is one; then the method "none". It stops at the first offer that
/// the server takes, and fails only when the server took none.
pub proof fn offers_come_in_order(
    plan: AuthPlan,
    loads: Seq<Option<bool>>,
    accepts: spec_fn(AuthStage) -> bool,
)
    requires
        loads.len() == plan.keys,
    ensures
        ({
            let (made, ok) = until_accepted(offers_from(plan, loads, 0), accepts);
            auth_run(plan, loads, accepts, plan.from_key(0)) == (
                made,
                if ok {
                    AuthStage::Accepted
                } else {
                    AuthStage::Failed
                },
            )
        }),
{
    offers_left_from_key(plan, loads, 0);
    auth_run_follows(plan, loads, accepts, plan.from_key(0));
}

/// A server whose key is recorded is trusted by every policy. One that is not
/// known, or of which nothing can be said, is trusted just if the policy is not
/// strict, and a new key is then recorded, just once: where it was looked for
/// and not found.
pub proof fn new_keys_are_learned(policy: HostKeyPolicy)
    requires
        !policy.accept_all,
    ensures
        policy.accepts(Some(KnownHosts::Match)),
        policy.accepts(Some(KnownHosts::NoMatch)) <==> !policy.strict,
        policy.accepts(Some(KnownHosts::Failed)) <==> !policy.strict,
        policy.accepts(None) <==> !policy.strict,
        policy.records(Some(KnownHosts::NoMatch)) <==> !policy.strict,
        !policy.records(Some(KnownHosts::Match)),
        !policy.records(Some(KnownHosts::Changed)),
        !policy.records(Some(KnownHosts::Failed)),
        !policy.records(None),
{
}

/// The known-hosts file is consulted as named, unless it is the null device or
/// every key is taken.
pub proof fn known_hosts_are_consulted(policy: HostKeyPolicy)
    ensures
        policy.known_hosts_path is None ==> policy.consults() is None,
        policy.known_hosts_path matches Some(p) ==> (policy.consults() is None
            <==> policy.accept_all || p@ == "/dev/null"@ || p@ == "nul"@),
        policy.known_hosts_path matches Some(p) ==> (policy.consults() matches Some(q) ==> q == p@),
{
}

/// A connection to a forwarded port goes to the target of the last forward with
/// that bind port, written `host:port`; a port that nothing forwards goes
/// nowhere.
pub proof fn forwarded_connections_reach_their_target(specs: Seq<ForwardSpec>, i: int, port: u16)
    requires
        0 <= i < specs.len(),
        forall|j: int| i < j < specs.len() ==> (#[trigger] specs[j]).bind_port != specs[i].bind_port,
    ensures
        forward_destination(forward_map(specs), specs[i].bind_port as u32) == Some(
            specs[i].target_host@ + seq![':'] + decimal(specs[i].target_port as nat),
        ),
        (forall|j: int| 0 <= j < specs.len() ==> (#[trigger] specs[j]).bind_port != port)
            ==> forward_destination(forward_map(specs), port as u32) is None,
{
    reveal_strlit(":");
    assert(":"@ =~= seq![':']);
    last_forward_wins(specs, i);
    if forall|j: int| 0 <= j < specs.len() ==> (#[trigger] specs[j]).bind_port != port {
        unforwarded_port(specs, port);
    }
}

proof fn unforwarded_port(specs: Seq<ForwardSpec>, port: u16)
    requires
        forall|j: int| 0 <= j < specs.len() ==> (#[trigger] specs[j]).bind_port != port,
    ensures
        !forward_map(specs).dom().contains(port),
    decreases specs.len(),
{
    if specs.len() > 0 {
        let front = specs.drop_last();
        assert forall|j: int| 0 <= j < front.len() implies (#[trigger] front[j]).bind_port
            != port by {
            assert(front[j] == specs[j]);
        }
        unforwarded_port(front, port);
        assert(specs[specs.len() - 1].bind_port != port);
    }
}

/// A pipe is known by its prefix, and its name is what follows.
pub proof fn pipes_are_known_by_their_prefix(name: Seq<char>, path: Seq<char>)
    ensures
        pipe_name(seq!['\\', '\\', '.', '\\', 'p', 'i', 'p', 'e', '\\'] + name) == Some(name),
        pipe_name(path) matches Some(n) ==> path == seq![
            '\\',
            '\\',
            '.',
            '\\',
            'p',
            'i',
            'p',
            'e',
            '\\',
        ] + n,
{
    reveal_strlit("\\\\.\\pipe\\");
    let prefix = seq!['\\', '\\', '.', '\\', 'p', 'i', 'p', 'e', '\\'];
    assert("\\\\.\\pipe\\"@ =~= prefix);
    assert((prefix + name).take(9) =~= prefix);
    assert((prefix + name).skip(9) =~= name);
    if pipe_name(path) is Some {
        assert(path =~= path.take(9) + path.skip(9));
    }
}

/// An exit status is the exit code, the same 32 bits: a small one is the same
/// number. The status that was recorded for a channel counts, and else the code
/// that the reader knows of.
pub proof fn exit_codes_are_the_status(status: u32, read: i32)
    ensures
        status <= i32::MAX ==> exit_code(status) == status,
        status > i32::MAX ==> exit_code(status) == status - 0x1_0000_0000,
        session_code(read, Some(status)) == exit_code(status),
        session_code(read, None) == read,
{
}

/// What a run of events writes to the standard error.
pub open spec fn session_stderr(r: SessionReader, events: Seq<ChannelEventModel>) -> Seq<u8>
    decreases events.len(),
{
    if events.len() == 0 {
        Seq::empty()
    } else {
        let rest = session_stderr(r.after(events[0]), events.skip(1));
        match r.passes_on(events[0]) {
            SessionOutputModel::Stderr(b) => b + rest,
            _ => rest,
        }
    }
}

/// The error bytes of all events, in order.
pub open spec fn all_errors(events: Seq<ChannelEventModel>) -> Seq<u8>
    decreases events.len(),
{
    if events.len() == 0 {
        Seq::empty()
    } else {
        match events[0] {
            ChannelEventModel::Extended(b) => b + all_errors(events.skip(1)),
            _ => all_errors(events.skip(1)),
        }
    }
}

/// Until the remote side is done or reports its exit status, the standard error
/// gets every error byte once, in order, and nothing else.
pub proof fn session_errors_are_faithful(r: SessionReader, events: Seq<ChannelEventModel>)
    requires
        r.phase == ReaderPhase::Reading,
        forall|i: int|
            0 <= i < events.len() ==> ((#[trigger] events[i]) is Data || events[i] is Extended
                || events[i] is Other),
    ensures
        session_stderr(r, events) == all_errors(events),
        session_stdout(r, events) == all_data(events),
        read_all(r, events) == r,
    decreases events.len(),
{
    if events.len() > 0 {
        let rest = events.skip(1);
        assert(events[0] is Data || events[0] is Extended || events[0] is Other);
        assert forall|i: int| 0 <= i < rest.len() implies ((#[trigger] rest[i]) is Data
            || rest[i] is Extended || rest[i] is Other) by {
            assert(rest[i] == events[i + 1]);
        }
        session_errors_are_faithful(r, rest);
    }
}

/// A session ends with its exit status, or when the channel is gone; after the
/// end of the output it still waits for the status; and once it has ended
/// nothing changes and nothing is written.
pub proof fn sessions_end(r: SessionReader, status: u32, event: ChannelEventModel)
    ensures
        r.phase == ReaderPhase::Reading ==> r.after(ChannelEventModel::ExitStatus(status)) == (
        SessionReader { phase: ReaderPhase::Finished, code: exit_code(status) }),
        r.phase == ReaderPhase::Reading ==> r.after(ChannelEventModel::Eof).phase
            == ReaderPhase::Draining && r.after(ChannelEventModel::Close).phase
            == ReaderPhase::Draining,
        r.phase == ReaderPhase::Draining ==> r.after(ChannelEventModel::ExitStatus(status)).code
            == exit_code(status),
        r.phase == ReaderPhase::Draining ==> r.passes_on(event) is Nothing,
        r.after(ChannelEventModel::Gone).phase == ReaderPhase::Finished,
        r.after(ChannelEventModel::Gone).code == r.code,
        r.phase == ReaderPhase::Finished ==> r.after(event) == r && r.passes_on(event) is Nothing,
{
}

/// The locale is `LANG`, `LANGUAGE` and every name that begins with `LC_`; no
/// other variable belongs to it.
pub proof fn locale_names(rest: Seq<char>, name: Seq<char>)
    ensures
        is_locale_name("LANG"@),
        is_locale_name("LANGUAGE"@),
        is_locale_name(seq!['L', 'C', '_'] + rest),
        is_locale_name(name) ==> name == "LANG"@ || name == "LANGUAGE"@ || (name.len() >= 3
            && name[0] == 'L' && name[1] == 'C' && name[2] == '_'),
{
    reveal_strlit("LC_");
    assert("LC_"@ =~= seq!['L', 'C', '_']);
    assert((seq!['L', 'C', '_'] + rest).take(3) =~= "LC_"@);
    if begins_with(name, "LC_"@) {
        assert(name.take(3)[0] == 'L' && name.take(3)[1] == 'C' && name.take(3)[2] == '_');
    }
}

/// `SendEnv` asks for the words behind it, whether a blank or an equals sign
/// follows the keyword and in whatever letter case it is written; no other
/// option asks for any.
pub proof fn send_env_asks_for_its_words(key: Seq<char>, value: Seq<char>)
    requires
        key.len() > 0,
        forall|i: int| 0 <= i < key.len() ==> (#[trigger] key[i]) != '=' && !is_white(key[i]),
        value.len() > 0,
        !is_white(value[0]),
        !is_white(value.last()),
        value[0] != '=',
    ensures
        ascii_lower(key) == "sendenv"@ ==> asked_by(key + (seq!['='] + value)) == words(value)
            && asked_by(key + (seq![' '] + value)) == words(value),
        ascii_lower(key) != "sendenv"@ ==> asked_by(key + (seq!['='] + value)).len() == 0
            && asked_by(key + (seq![' '] + value)).len() == 0,
{
    let n = key.len() as int;
    let a = key + (seq!['='] + value);
    let b = key + (seq![' '] + value);
    assert(key[0] != '=' && !is_white(key[0]));
    assert(a[0] == key[0] && a.last() == value.last());
    assert(b[0] == key[0] && b.last() == value.last());
    crate::text::trimmed_keeps(a);
    crate::text::trimmed_keeps(b);
    key_ends(key, seq!['='] + value);
    key_ends(key, seq![' '] + value);
    assert(a.take(n) =~= key && b.take(n) =~= key);
    assert(a.skip(n) =~= seq!['='] + value);
    assert(b.skip(n) =~= seq![' '] + value);
    assert((seq!['='] + value).skip(1) =~= value);
    assert((seq![' '] + value).skip(1) =~= value);
    assert(trim_front(seq!['='] + value) == seq!['='] + value);
    assert(trim_front(seq![' '] + value) == trim_front(value));
    assert(trim_front(value) == value);
}

proof fn key_ends(key: Seq<char>, rest: Seq<char>)
    requires
        forall|i: int| 0 <= i < key.len() ==> (#[trigger] key[i]) != '=' && !is_white(key[i]),
        rest.len() > 0,
        rest[0] == '=' || is_white(rest[0]),
    ensures
        key_len(key + rest) == key.len(),
    decreases key.len(),
{
    if key.len() == 0 {
        assert(key + rest =~= rest);
    } else {
        let shorter = key.skip(1);
        assert forall|i: int| 0 <= i < shorter.len() implies (#[trigger] shorter[i]) != '='
            && !is_white(shorter[i]) by {
            assert(shorter[i] == key[i + 1]);
        }
        key_ends(shorter, rest);
        assert((key + rest).skip(1) =~= shorter + rest);
        assert((key + rest)[0] == key[0]);
    }
}

/// The variables of all options count, in the order in which they are given.
pub proof fn asked_names_add_up(options: Seq<Seq<char>>, option: Seq<char>)
    ensures
        asked_names(Seq::empty()) == Seq::<Seq<char>>::empty(),
        asked_names(options.push(option)) == asked_names(options) + asked_by(option),
{
    assert(options.push(option).drop_last() =~= options);
}

/// Whatever is offered, an answer of yes ends the authentication with success,
/// and nothing else does.
pub proof fn only_the_server_lets_in(plan: AuthPlan, stage: AuthStage, i: usize, rsa: Option<bool>)
    ensures
        plan.answered(stage, true) == AuthStage::Accepted,
        plan.answered(stage, false) != AuthStage::Accepted,
        plan.loaded(i, rsa) != AuthStage::Accepted,
        plan.from_key(i as int) != AuthStage::Accepted,
        plan.from_key(i as int) != AuthStage::Failed,
{
}

/// Each identity file that can be loaded is offered, the first one first; an RSA
/// key with SHA-512, then SHA-256, then without, and any other key once; then
/// the password, where there is one, and the method "none" at last.
pub proof fn every_credential_is_offered(plan: AuthPlan, i: usize, rsa: bool)
    requires
        i < plan.keys,
    ensures
        plan.from_key(0) == AuthStage::Load(0),
        plan.loaded(i, Some(true)) == AuthStage::Key(i, true, KeyHash::Sha512),
        plan.loaded(i, Some(false)) == AuthStage::Key(i, false, KeyHash::Legacy),
        plan.answered(AuthStage::Key(i, true, KeyHash::Sha512), false) == AuthStage::Key(
            i,
            true,
            KeyHash::Sha256,
        ),
        plan.answered(AuthStage::Key(i, true, KeyHash::Sha256), false) == AuthStage::Key(
            i,
            true,
            KeyHash::Legacy,
        ),
        ({
            let next = if i + 1 < plan.keys {
                AuthStage::Load((i + 1) as usize)
            } else if plan.password {
                AuthStage::Password
            } else {
                AuthStage::NoneMethod
            };
            &&& plan.loaded(i, None) == next
            &&& plan.answered(AuthStage::Key(i, rsa, KeyHash::Legacy), false) == next
        }),
        plan.answered(AuthStage::Password, false) == AuthStage::NoneMethod,
        plan.answered(AuthStage::NoneMethod, false) == AuthStage::Failed,
{
}

/// An exit status is awaited for five seconds after the remote side is done.
pub proof fn draining_takes_five_seconds()
    ensures
        DRAIN_SECONDS == 5,
{
}

} // verus!
