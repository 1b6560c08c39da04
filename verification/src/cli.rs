//! Command-line values: destinations, options and forwarding specs.

use vstd::hash_map::StringHashMap;
use vstd::prelude::*;
use vstd::string::*;

use crate::number::{decimal, number_u16, parse_u16};
use crate::text::{
    ascii_lower, chars_of, concatenate, cut_first, cut_first_rejoins, cut_last, cut_last_rejoins,
    eq_chars, is_white, opt_text, skip_chars, split_first, split_last, string_of, strip_back,
    strip_front, texts, to_ascii_lower, trim, trim_end_matches, trim_front, trim_start_matches,
    trimmed, unicode_lower,
};
use crate::types::{
    DynamicForwardModel, DynamicForwardSpec, ForwardModel, ForwardSpec, ProxyJumpModel,
    ProxyJumpSpec,
};

verus! {

broadcast use vstd::string::group_string_axioms;

/// Why a textual spec was refused.
#[derive(Clone, Copy, PartialEq, Eq, Structural, Debug)]
pub enum SpecError {
    /// There is no host to connect to.
    NoDestination,
    /// The port of a destination is not a number that fits in 16 bits.
    DestinationPort,
    /// The destination opens a bracket and does not close it.
    DestinationBracket,
    /// The port of a jump host is not a number that fits in 16 bits.
    JumpPort,
    /// The bind address of a forward opens a bracket and does not close it.
    ForwardBindBracket,
    /// The forward is neither a port nor a bind address followed by more.
    ForwardShape,
    /// The forward lacks its target.
    ForwardTarget,
    /// The bind port of a forward is not a number that fits in 16 bits.
    ForwardBindPort,
    /// The target host of a forward opens a bracket and does not close it.
    ForwardTargetBracket,
    /// The target port of a forward is not a number that fits in 16 bits.
    ForwardTargetPort,
    /// The port of a proxy listener is not a number that fits in 16 bits.
    SocksPort,
    /// A transfer lacks the colon between local and remote path.
    FileSeparator,
}

/// What a user is told of a spec that was refused.
pub open spec fn spec_message(e: SpecError, spec: Seq<char>) -> Seq<char> {
    match e {
        SpecError::NoDestination => "no destination specified"@,
        SpecError::DestinationPort => "invalid port in destination: "@ + spec,
        SpecError::DestinationBracket => "unclosed bracket in destination: "@ + spec,
        SpecError::JumpPort => "Invalid port in proxy jump"@,
        SpecError::ForwardBindBracket => "unclosed bracket in forward spec: "@ + trimmed(spec),
        SpecError::ForwardShape => "invalid forward spec: "@ + trimmed(spec),
        SpecError::ForwardTarget => "invalid forward spec: "@ + trimmed(spec)
            + ". Use port:host:port or [bind:]port:host:port"@,
        SpecError::ForwardBindPort => "invalid bind port in forward spec: "@ + trimmed(spec),
        SpecError::ForwardTargetBracket => "unclosed bracket for target host in forward spec: "@
            + trimmed(spec),
        SpecError::ForwardTargetPort => "invalid target port in forward spec: "@ + trimmed(spec),
        SpecError::SocksPort => "invalid SOCKS port"@,
        SpecError::FileSeparator => "invalid file spec: "@ + spec + ", expected local:remote"@,
    }
}

impl SpecError {
    /// What a user is told of the spec that was refused; see
    /// [`spec_message`].
    pub fn message(self, spec: &str) -> (r: String)
        ensures
            r@ == spec_message(self, spec@),
    {
        let all = chars_of(spec);
        let short = string_of(trim(all.as_slice()));
        match self {
            SpecError::NoDestination => "no destination specified".to_owned(),
            SpecError::DestinationPort => concatenate("invalid port in destination: ", spec),
            SpecError::DestinationBracket => concatenate("unclosed bracket in destination: ", spec),
            SpecError::JumpPort => "Invalid port in proxy jump".to_owned(),
            SpecError::ForwardBindBracket => concatenate(
                "unclosed bracket in forward spec: ",
                short.as_str(),
            ),
            SpecError::ForwardShape => concatenate("invalid forward spec: ", short.as_str()),
            SpecError::ForwardTarget => {
                let front = concatenate("invalid forward spec: ", short.as_str());
                concatenate(front.as_str(), ". Use port:host:port or [bind:]port:host:port")
            },
            SpecError::ForwardBindPort => concatenate(
                "invalid bind port in forward spec: ",
                short.as_str(),
            ),
            SpecError::ForwardTargetBracket => concatenate(
                "unclosed bracket for target host in forward spec: ",
                short.as_str(),
            ),
            SpecError::ForwardTargetPort => concatenate(
                "invalid target port in forward spec: ",
                short.as_str(),
            ),
            SpecError::SocksPort => "invalid SOCKS port".to_owned(),
            SpecError::FileSeparator => {
                let front = concatenate("invalid file spec: ", spec);
                concatenate(front.as_str(), ", expected local:remote")
            },
        }
    }
}

// ---------------------------------------------------------------------
// Destinations
// ---------------------------------------------------------------------

/// The port used where none is given.
pub const DEFAULT_PORT: u16 = 22;

/// The optional user before the last `@`, and what follows it.
pub open spec fn user_part(s: Seq<char>) -> (Option<Seq<char>>, Seq<char>) {
    match cut_last(s, '@') {
        Some((user, rest)) => (Some(user), rest),
        None => (None, s),
    }
}

/// `host`, `host:port`, `[host]` or `[host]:port`.
pub open spec fn host_and_port(s: Seq<char>) -> Result<(Seq<char>, u16), SpecError> {
    if s.len() > 0 && s[0] == '[' {
        match cut_first(s.skip(1), ']') {
            None => Err(SpecError::DestinationBracket),
            Some((host, tail)) => {
                let port = strip_front(tail, ':');
                if port.len() == 0 {
                    Ok((host, DEFAULT_PORT))
                } else {
                    match number_u16(port) {
                        Some(p) => Ok((host, p)),
                        None => Err(SpecError::DestinationPort),
                    }
                }
            },
        }
    } else {
        match cut_last(s, ':') {
            Some((host, port)) => match number_u16(port) {
                Some(p) => Ok((host, p)),
                None => Err(SpecError::DestinationPort),
            },
            None => Ok((s, DEFAULT_PORT)),
        }
    }
}

/// `[user@]` followed by [`host_and_port`], as host, user and port.
pub open spec fn destination(s: Seq<char>) -> Result<
    (Seq<char>, Option<Seq<char>>, u16),
    SpecError,
> {
    let (user, rest) = user_part(s);
    match host_and_port(rest) {
        Ok((host, port)) => Ok((host, user, port)),
        Err(e) => Err(e),
    }
}

/// The texts of a parsed destination.
pub open spec fn destination_model(
    r: Result<(String, Option<String>, u16), SpecError>,
) -> Result<(Seq<char>, Option<Seq<char>>, u16), SpecError> {
    match r {
        Ok((host, user, port)) => Ok((host@, opt_text(user), port)),
        Err(e) => Err(e),
    }
}

/// Reads a destination; the result is host, user and port.
pub fn parse_destination(dest: &str) -> (r: Result<(String, Option<String>, u16), SpecError>)
    ensures
        destination_model(r) == destination(dest@),
{
    let all = chars_of(dest);
    let (user, rest): (Option<String>, &[char]) = match split_last(all.as_slice(), '@') {
        Some((user, rest)) => (Some(string_of(user)), rest),
        None => (None, all.as_slice()),
    };
    if rest.len() > 0 && rest[0] == '[' {
        match split_first(skip_chars(rest, 1), ']') {
            None => Err(SpecError::DestinationBracket),
            Some((host, tail)) => {
                let port = trim_start_matches(tail, ':');
                if port.len() == 0 {
                    Ok((string_of(host), user, DEFAULT_PORT))
                } else {
                    match parse_u16(port) {
                        Some(p) => Ok((string_of(host), user, p)),
                        None => Err(SpecError::DestinationPort),
                    }
                }
            },
        }
    } else {
        match split_last(rest, ':') {
            Some((host, port)) => match parse_u16(port) {
                Some(p) => Ok((string_of(host), user, p)),
                None => Err(SpecError::DestinationPort),
            },
            None => Ok((string_of(rest), user, DEFAULT_PORT)),
        }
    }
}

// ---------------------------------------------------------------------
// Jump hosts
// ---------------------------------------------------------------------

/// `[user@]host[:port]`, white space around it ignored; brackets around the
/// host are dropped where a port follows.
pub open spec fn proxy_jump(spec: Seq<char>) -> Result<ProxyJumpModel, SpecError> {
    let (user, rest) = user_part(trimmed(spec));
    match cut_last(rest, ':') {
        None => Ok(ProxyJumpModel { user, host: rest, port: DEFAULT_PORT }),
        Some((host, port)) => match number_u16(port) {
            None => Err(SpecError::JumpPort),
            Some(p) => if host.len() > 0 && host[0] == '[' && host.last() == ']' {
                Ok(
                    ProxyJumpModel {
                        user,
                        host: strip_back(strip_front(host, '['), ']'),
                        port: p,
                    },
                )
            } else {
                Ok(ProxyJumpModel { user, host, port: p })
            },
        },
    }
}

/// Reads a jump host.
pub fn parse_proxy_jump(spec: &str) -> (r: Result<ProxyJumpSpec, SpecError>)
    ensures
        match r {
            Ok(j) => proxy_jump(spec@) == Ok::<ProxyJumpModel, SpecError>(j@),
            Err(e) => proxy_jump(spec@) == Err::<ProxyJumpModel, SpecError>(e),
        },
{
    let all = chars_of(spec);
    let spec = trim(all.as_slice());
    let (user, rest): (Option<String>, &[char]) = match split_last(spec, '@') {
        Some((user, rest)) => (Some(string_of(user)), rest),
        None => (None, spec),
    };
    match split_last(rest, ':') {
        None => Ok(ProxyJumpSpec { user, host: string_of(rest), port: DEFAULT_PORT }),
        Some((host, port)) => match parse_u16(port) {
            None => Err(SpecError::JumpPort),
            Some(p) => {
                if host.len() > 0 && host[0] == '[' && host[host.len() - 1] == ']' {
                    let bare = trim_end_matches(trim_start_matches(host, '['), ']');
                    Ok(ProxyJumpSpec { user, host: string_of(bare), port: p })
                } else {
                    Ok(ProxyJumpSpec { user, host: string_of(host), port: p })
                }
            },
        },
    }
}

// ---------------------------------------------------------------------
// Forwards
// ---------------------------------------------------------------------

/// The address a forward listens on where none is given: every interface
/// with gateway ports, else loopback.
pub open spec fn default_bind(gateway_ports: bool) -> Seq<char> {
    if gateway_ports {
        "0.0.0.0"@
    } else {
        "127.0.0.1"@
    }
}

/// The bind address of a forward and what follows it. A first field that is
/// a port means that no bind address is given.
pub open spec fn forward_bind(spec: Seq<char>, gateway_ports: bool) -> Result<
    (Seq<char>, Seq<char>),
    SpecError,
> {
    if spec.len() > 0 && spec[0] == '[' {
        match cut_first(spec.skip(1), ']') {
            None => Err(SpecError::ForwardBindBracket),
            Some((bind, tail)) => Ok((bind, strip_front(tail, ':'))),
        }
    } else {
        match cut_first(spec, ':') {
            None => if number_u16(spec) is Some {
                Ok((default_bind(gateway_ports), spec))
            } else {
                Err(SpecError::ForwardShape)
            },
            Some((first, tail)) => if number_u16(first) is Some {
                Ok((default_bind(gateway_ports), spec))
            } else {
                Ok((first, tail))
            },
        }
    }
}

/// The target of a forward, `host:port` or `[host]:port`.
pub open spec fn forward_target(s: Seq<char>) -> Result<(Seq<char>, u16), SpecError> {
    let parts = if s.len() > 0 && s[0] == '[' {
        match cut_first(s.skip(1), ']') {
            None => Err(SpecError::ForwardTargetBracket),
            Some((host, tail)) => Ok((host, strip_front(tail, ':'))),
        }
    } else {
        match cut_last(s, ':') {
            None => Err(SpecError::ForwardTarget),
            Some((host, port)) => Ok((host, port)),
        }
    };
    match parts {
        Err(e) => Err(e),
        Ok((host, port)) => match number_u16(port) {
            None => Err(SpecError::ForwardTargetPort),
            Some(p) => Ok((host, p)),
        },
    }
}

/// `[bind:]port:host:hostport`, white space around it ignored.
pub open spec fn forward(spec: Seq<char>, gateway_ports: bool) -> Result<ForwardModel, SpecError> {
    match forward_bind(trimmed(spec), gateway_ports) {
        Err(e) => Err(e),
        Ok((bind_addr, core)) => match cut_first(core, ':') {
            None => Err(SpecError::ForwardTarget),
            Some((port, target)) => match number_u16(port) {
                None => Err(SpecError::ForwardBindPort),
                Some(bind_port) => match forward_target(target) {
                    Err(e) => Err(e),
                    Ok((target_host, target_port)) => Ok(
                        ForwardModel { bind_addr, bind_port, target_host, target_port },
                    ),
                },
            },
        },
    }
}

fn default_bind_address(gateway_ports: bool) -> (r: String)
    ensures
        r@ == default_bind(gateway_ports),
{
    if gateway_ports {
        "0.0.0.0".to_owned()
    } else {
        "127.0.0.1".to_owned()
    }
}

/// Reads the target of a forward; see [`forward_target`].
fn parse_forward_target(s: &[char]) -> (r: Result<(String, u16), SpecError>)
    ensures
        match r {
            Ok((host, port)) => forward_target(s@) == Ok::<(Seq<char>, u16), SpecError>(
                (host@, port),
            ),
            Err(e) => forward_target(s@) == Err::<(Seq<char>, u16), SpecError>(e),
        },
{
    let (host, port): (&[char], &[char]) = if s.len() > 0 && s[0] == '[' {
        match split_first(skip_chars(s, 1), ']') {
            None => return Err(SpecError::ForwardTargetBracket),
            Some((host, tail)) => (host, trim_start_matches(tail, ':')),
        }
    } else {
        match split_last(s, ':') {
            None => return Err(SpecError::ForwardTarget),
            Some((host, port)) => (host, port),
        }
    };
    match parse_u16(port) {
        None => Err(SpecError::ForwardTargetPort),
        Some(p) => Ok((string_of(host), p)),
    }
}

/// Reads a local or remote forward. Without an explicit bind address the
/// forward listens on loopback, or on every interface with `gateway_ports`.
pub fn parse_forward_spec(spec: &str, gateway_ports: bool) -> (r: Result<ForwardSpec, SpecError>)
    ensures
        match r {
            Ok(f) => forward(spec@, gateway_ports) == Ok::<ForwardModel, SpecError>(f@),
            Err(e) => forward(spec@, gateway_ports) == Err::<ForwardModel, SpecError>(e),
        },
{
    let all = chars_of(spec);
    let spec = trim(all.as_slice());
    let (bind_addr, core): (String, &[char]) = if spec.len() > 0 && spec[0] == '[' {
        match split_first(skip_chars(spec, 1), ']') {
            None => return Err(SpecError::ForwardBindBracket),
            Some((bind, tail)) => (string_of(bind), trim_start_matches(tail, ':')),
        }
    } else {
        match split_first(spec, ':') {
            None => {
                if parse_u16(spec).is_none() {
                    return Err(SpecError::ForwardShape);
                }
                (default_bind_address(gateway_ports), spec)
            },
            Some((first, tail)) => {
                if parse_u16(first).is_some() {
                    (default_bind_address(gateway_ports), spec)
                } else {
                    (string_of(first), tail)
                }
            },
        }
    };
    match split_first(core, ':') {
        None => Err(SpecError::ForwardTarget),
        Some((port, target)) => match parse_u16(port) {
            None => Err(SpecError::ForwardBindPort),
            Some(bind_port) => match parse_forward_target(target) {
                Err(e) => Err(e),
                Ok((target_host, target_port)) => Ok(
                    ForwardSpec { bind_addr, bind_port, target_host, target_port },
                ),
            },
        },
    }
}

/// `[bind:]port` of a proxy listener.
pub open spec fn dynamic_forward(spec: Seq<char>, gateway_ports: bool) -> Result<
    DynamicForwardModel,
    SpecError,
> {
    let (bind_addr, port) = match cut_first(spec, ':') {
        Some((bind, port)) => (bind, port),
        None => (default_bind(gateway_ports), spec),
    };
    match number_u16(port) {
        Some(bind_port) => Ok(DynamicForwardModel { bind_addr, bind_port }),
        None => Err(SpecError::SocksPort),
    }
}

/// Reads the address of a proxy listener.
pub fn parse_dynamic_spec(spec: &str, gateway_ports: bool) -> (r: Result<
    DynamicForwardSpec,
    SpecError,
>)
    ensures
        match r {
            Ok(f) => dynamic_forward(spec@, gateway_ports) == Ok::<DynamicForwardModel, SpecError>(
                f@,
            ),
            Err(e) => dynamic_forward(spec@, gateway_ports) == Err::<
                DynamicForwardModel,
                SpecError,
            >(e),
        },
{
    let all = chars_of(spec);
    let (bind_addr, port): (String, &[char]) = match split_first(all.as_slice(), ':') {
        Some((bind, port)) => (string_of(bind), port),
        None => (default_bind_address(gateway_ports), all.as_slice()),
    };
    match parse_u16(port) {
        Some(bind_port) => Ok(DynamicForwardSpec { bind_addr, bind_port }),
        None => Err(SpecError::SocksPort),
    }
}

// ---------------------------------------------------------------------
// The command line
// ---------------------------------------------------------------------

/// The command line after parsing.
pub struct Cli {
    /// The port of the server; `-p`.
    pub ssh_port: u16,
    /// Algorithm lists to print; `-Q`.
    pub query: Vec<String>,
    /// The login user; `-l`.
    pub user: Option<String>,
    /// Identity files, in the order in which they are tried; `-i`.
    pub identity_file: Vec<String>,
    /// The configuration file; `-F`.
    pub config_file: Option<String>,
    /// The jump host; `-J`.
    pub proxy_jump: Option<String>,
    /// IPv4 only; `-4`.
    pub ipv4: bool,
    /// IPv6 only; `-6`.
    pub ipv6: bool,
    /// Forward the agent; `-A`.
    pub forward_agent: bool,
    /// Do not forward the agent; `-a`.
    pub no_forward_agent: bool,
    /// Compress; `-C`.
    pub compress: bool,
    /// SOCKS5 listeners; `-D`.
    pub dynamic_forward: Vec<String>,
    /// HTTP CONNECT listeners; `-H`.
    pub http_proxy_connect: Vec<String>,
    /// How often `-v` was given.
    pub verbose: u8,
    /// Errors only; `-q`.
    pub quiet: bool,
    /// Where the log goes; `-E`.
    pub log_file: Option<String>,
    /// Options of the form `key=value`; `-o`.
    pub ssh_option: Vec<String>,
    /// Run no command; `-N`.
    pub no_command: bool,
    /// Ask for a terminal; `-t`.
    pub force_tty: bool,
    /// Ask for no terminal, whatever `-t` says; `-T`.
    pub disable_pty: bool,
    /// Local forwards; `-L`.
    pub local_forward: Vec<String>,
    /// Listen on every interface by default; `-g`.
    pub gateway_ports: bool,
    /// The local address of the connection; `-b`.
    pub bind_address: Option<String>,
    /// The local interface of the connection; `-B`.
    pub bind_interface: Option<String>,
    /// Take any host key; `-y`.
    pub accept_all_host_keys: bool,
    /// Remote forwards; `-R`.
    pub remote_forward: Vec<String>,
    /// The passphrase of the identity files.
    pub passphrase: Option<String>,
    /// The file that holds the passphrase.
    pub passphrase_file: Option<String>,
    /// The password.
    pub password: Option<String>,
    /// The file that holds the password.
    pub password_file: Option<String>,
    /// The control socket; `-S`.
    pub control_path: Option<String>,
    /// The command for the master; `-O`.
    pub control_command: Option<String>,
    /// Seconds for the connection; 0 for no limit.
    pub connect_timeout: u64,
    /// Seconds without traffic; 0 for no limit.
    pub inactivity_timeout: u64,
    /// Take no input; `-n`.
    pub redirect_stdin: bool,
    /// Go to the background; `-f`.
    pub fork: bool,
    /// Variables for the remote command.
    pub exec_env: Vec<String>,
    /// Ciphers in order of preference; `-c`.
    pub cipher_spec: Vec<String>,
    /// MACs in order of preference; `-m`.
    pub mac_spec: Vec<String>,
    /// The syntax of the remote shell: `sh` or `cmd`.
    pub shell: String,
    /// Print the help text.
    pub help: bool,
    /// The destination.
    pub destination: Option<String>,
    /// The words of the remote command.
    pub command: Vec<String>,
    /// Uploads.
    pub push: Vec<String>,
    /// Downloads.
    pub pull: Vec<String>,
    /// Directories to synchronize.
    pub rsync: Vec<String>,
    /// Options for synchronizing.
    pub rsync_opt: Vec<String>,
    /// Log at debug level, whatever `-q` says.
    pub debug_all: bool,
    /// The escape character; `-e`.
    pub escape_char: Option<String>,
}

impl Default for Cli {
    fn default() -> (r: Self)
        ensures
            r.ssh_port == DEFAULT_PORT,
            r.query@.len() == 0,
            r.user is None,
            r.identity_file@.len() == 0,
            r.config_file is None,
            r.proxy_jump is None,
            !r.ipv4,
            !r.ipv6,
            !r.forward_agent,
            !r.no_forward_agent,
            !r.compress,
            r.dynamic_forward@.len() == 0,
            r.http_proxy_connect@.len() == 0,
            r.verbose == 0,
            !r.quiet,
            r.log_file is None,
            r.ssh_option@.len() == 0,
            !r.no_command,
            !r.force_tty,
            !r.disable_pty,
            r.local_forward@.len() == 0,
            !r.gateway_ports,
            r.bind_address is None,
            r.bind_interface is None,
            !r.accept_all_host_keys,
            r.remote_forward@.len() == 0,
            r.passphrase is None,
            r.passphrase_file is None,
            r.password is None,
            r.password_file is None,
            r.control_path is None,
            r.control_command is None,
            r.connect_timeout == 0,
            r.inactivity_timeout == 0,
            !r.redirect_stdin,
            !r.fork,
            r.exec_env@.len() == 0,
            r.cipher_spec@.len() == 0,
            r.mac_spec@.len() == 0,
            r.shell@ == "sh"@,
            !r.help,
            r.destination is None,
            r.command@.len() == 0,
            r.push@.len() == 0,
            r.pull@.len() == 0,
            r.rsync@.len() == 0,
            r.rsync_opt@.len() == 0,
            !r.debug_all,
            r.escape_char is None,
    {
        Cli {
            ssh_port: DEFAULT_PORT,
            query: Vec::new(),
            user: None,
            identity_file: Vec::new(),
            config_file: None,
            proxy_jump: None,
            ipv4: false,
            ipv6: false,
            forward_agent: false,
            no_forward_agent: false,
            compress: false,
            dynamic_forward: Vec::new(),
            http_proxy_connect: Vec::new(),
            verbose: 0,
            quiet: false,
            log_file: None,
            ssh_option: Vec::new(),
            no_command: false,
            force_tty: false,
            disable_pty: false,
            local_forward: Vec::new(),
            gateway_ports: false,
            bind_address: None,
            bind_interface: None,
            accept_all_host_keys: false,
            remote_forward: Vec::new(),
            passphrase: None,
            passphrase_file: None,
            password: None,
            password_file: None,
            control_path: None,
            control_command: None,
            connect_timeout: 0,
            inactivity_timeout: 0,
            redirect_stdin: false,
            fork: false,
            exec_env: Vec::new(),
            cipher_spec: Vec::new(),
            mac_spec: Vec::new(),
            shell: "sh".to_owned(),
            help: false,
            destination: None,
            command: Vec::new(),
            push: Vec::new(),
            pull: Vec::new(),
            rsync: Vec::new(),
            rsync_opt: Vec::new(),
            debug_all: false,
            escape_char: None,
        }
    }
}

// ---------------------------------------------------------------------
// Options of the form key=value
// ---------------------------------------------------------------------

/// Keys and values of the options that hold a `=`, the keys in lower case.
pub open spec fn option_pairs(options: Seq<Seq<char>>) -> Seq<(Seq<char>, Seq<char>)>
    decreases options.len(),
{
    if options.len() == 0 {
        Seq::empty()
    } else {
        let front = option_pairs(options.drop_last());
        match cut_first(options.last(), '=') {
            Some((key, value)) => front.push((unicode_lower(key), value)),
            None => front,
        }
    }
}

/// The pairs as a map; of two with the same key the later one.
pub open spec fn pair_map(pairs: Seq<(Seq<char>, Seq<char>)>) -> Map<Seq<char>, Seq<char>>
    decreases pairs.len(),
{
    if pairs.len() == 0 {
        Map::empty()
    } else {
        pair_map(pairs.drop_last()).insert(pairs.last().0, pairs.last().1)
    }
}

/// Keys and values as text.
pub open spec fn pair_texts(pairs: Seq<(String, String)>) -> Seq<(Seq<char>, Seq<char>)> {
    pairs.map_values(|p: (String, String)| (p.0@, p.1@))
}

/// The values of a map as text.
pub open spec fn map_texts(map: Map<Seq<char>, String>) -> Map<Seq<char>, Seq<char>> {
    map.map_values(|s: String| s@)
}

/// Collects pairs in a map; see [`pair_map`].
pub fn collect_options(pairs: &Vec<(String, String)>) -> (r: StringHashMap<String>)
    ensures
        map_texts(r@) == pair_map(pair_texts(pairs@)),
{
    let mut map: StringHashMap<String> = StringHashMap::new();
    let mut i: usize = 0;
    assert(map_texts(map@) =~= pair_map(pair_texts(pairs@.take(0))));
    while i < pairs.len()
        invariant
            i <= pairs@.len(),
            map_texts(map@) == pair_map(pair_texts(pairs@.take(i as int))),
        decreases pairs@.len() - i,
    {
        let ghost before = map@;
        let key = pairs[i].0.clone();
        let value = pairs[i].1.clone();
        map.insert(key, value);
        proof {
            let shorter = pair_texts(pairs@.take(i as int));
            let longer = pair_texts(pairs@.take(i + 1));
            assert(longer.drop_last() =~= shorter);
            assert(longer.last() == (pairs@[i as int].0@, pairs@[i as int].1@));
            assert(map_texts(map@) =~= map_texts(before).insert(
                pairs@[i as int].0@,
                pairs@[i as int].1@,
            ));
        }
        i = i + 1;
    }
    assert(pairs@.take(pairs@.len() as int) =~= pairs@);
    map
}

/// Reads options of the form `key=value`. Keys count without regard to
/// letter case, the last value of a key wins, and an option without `=` is
/// passed over.
pub fn parse_ssh_options(options: &[String]) -> (r: StringHashMap<String>)
    ensures
        map_texts(r@) == pair_map(option_pairs(texts(options@))),
{
    let mut pairs: Vec<(String, String)> = Vec::new();
    let mut i: usize = 0;
    assert(pair_texts(pairs@) =~= option_pairs(texts(options@.take(0))));
    while i < options.len()
        invariant
            i <= options@.len(),
            pair_texts(pairs@) == option_pairs(texts(options@.take(i as int))),
        decreases options@.len() - i,
    {
        let ghost before = pairs@;
        proof {
            assert(texts(options@.take(i + 1)).drop_last() =~= texts(options@.take(i as int)));
            assert(texts(options@.take(i + 1)).last() == options@[i as int]@);
        }
        let option = chars_of(options[i].as_str());
        if let Some((key, value)) = split_first(option.as_slice(), '=') {
            let key = string_of(key);
            let lower = key.as_str().to_lowercase();
            let ghost pair = (lower@, value@);
            pairs.push((lower, string_of(value)));
            assert(pair_texts(pairs@) =~= pair_texts(before).push(pair));
        }
        i = i + 1;
    }
    assert(options@.take(options@.len() as int) =~= options@);
    collect_options(&pairs)
}

// ---------------------------------------------------------------------
// The escape character
// ---------------------------------------------------------------------

/// Why an escape character was refused.
#[derive(Clone, Copy, PartialEq, Eq, Structural, Debug)]
pub enum EscapeError {
    /// Nothing was given.
    Empty,
    /// `^` is not followed by exactly one byte.
    CaretLength,
    /// `^` is followed by a character that names no control character.
    CaretUnknown,
    /// More than one byte was given.
    NotOneByte,
}

/// The control character that `^` and `c` name.
pub open spec fn caret(c: char) -> Option<u8> {
    if c == '?' {
        Some(0x7f)
    } else if c == '^' {
        Some(0x5e)
    } else if 'a' <= c <= 'z' {
        Some((c as u8 - 0x60) as u8)
    } else if 'A' <= c <= 'Z' {
        Some((c as u8 - 0x40) as u8)
    } else {
        None
    }
}

/// Whether a text is a single ASCII character.
pub open spec fn one_byte(s: Seq<char>) -> bool {
    s.len() == 1 && s[0] <= '\u{7f}'
}

/// The byte that opens an escape sequence; `None` where there is none.
/// White space around the spec is ignored.
pub open spec fn escape_char(spec: Seq<char>) -> Result<Option<u8>, EscapeError> {
    let s = trimmed(spec);
    if ascii_lower(s) == "none"@ {
        Ok(None)
    } else if s.len() == 0 {
        Err(EscapeError::Empty)
    } else if s[0] == '^' {
        if !one_byte(s.skip(1)) {
            Err(EscapeError::CaretLength)
        } else {
            match caret(s[1]) {
                Some(b) => Ok(Some(b)),
                None => Err(EscapeError::CaretUnknown),
            }
        }
    } else if one_byte(s) {
        Ok(Some(s[0] as u8))
    } else {
        Err(EscapeError::NotOneByte)
    }
}

/// Reads an escape character: `none`, a single byte, or `^` and a character.
pub fn parse_escape_char(spec: &str) -> (r: Result<Option<u8>, EscapeError>)
    ensures
        r == escape_char(spec@),
{
    let all = chars_of(spec);
    let s = trim(all.as_slice());
    let lower = to_ascii_lower(s);
    let none = chars_of("none");
    if eq_chars(lower.as_slice(), none.as_slice()) {
        return Ok(None);
    }
    if s.len() == 0 {
        return Err(EscapeError::Empty);
    }
    if s[0] == '^' {
        if s.len() != 2 || s[1] > '\u{7f}' {
            return Err(EscapeError::CaretLength);
        }
        let c: char = s[1];
        if c == '?' {
            Ok(Some(0x7f))
        } else if c == '^' {
            Ok(Some(0x5e))
        } else if 'a' <= c && c <= 'z' {
            Ok(Some(c as u8 - 0x60))
        } else if 'A' <= c && c <= 'Z' {
            Ok(Some(c as u8 - 0x40))
        } else {
            Err(EscapeError::CaretUnknown)
        }
    } else if s.len() == 1 && s[0] <= '\u{7f}' {
        Ok(Some(s[0] as u8))
    } else {
        Err(EscapeError::NotOneByte)
    }
}

/// The escape character where none is given, or one that was refused.
pub const DEFAULT_ESCAPE: u8 = 0x7e;

/// The escape character in force.
pub open spec fn escape_in_force(given: Option<Seq<char>>) -> Option<u8> {
    match given {
        None => Some(DEFAULT_ESCAPE),
        Some(s) => match escape_char(s) {
            Ok(v) => v,
            Err(_) => Some(DEFAULT_ESCAPE),
        },
    }
}

/// The escape character in force: the given one, else `~`.
pub fn effective_escape_char(cli: &Cli) -> (r: Option<u8>)
    ensures
        r == escape_in_force(opt_text(cli.escape_char)),
{
    match &cli.escape_char {
        None => Some(DEFAULT_ESCAPE),
        Some(s) => match parse_escape_char(s.as_str()) {
            Ok(v) => v,
            Err(_) => Some(DEFAULT_ESCAPE),
        },
    }
}

// ---------------------------------------------------------------------
// Help
// ---------------------------------------------------------------------

/// The help text, line by line.
pub open spec fn help_text() -> Seq<Seq<char>> {
    seq![
        "passhrs - SSH automation tool (russh-based, SSH-compatible CLI)"@,
        ""@,
        "USAGE:  passhrs [OPTIONS] [user@]host[:port] [command...]"@,
        ""@,
        "OPTIONS:"@,
        "  -4, -6           IPv4/IPv6 only"@,
        "  -A, -a           Agent forward on/off"@,
        "  -b <address>     Source bind address for SSH connection (or -o BindAddress=)"@,
        "  -c <list>        Cipher spec (comma-sep, priority order)"@,
        "  -m <list>        MAC spec (comma-sep, priority order)"@,
        "  -C               Compression"@,
        "  -D <spec>        SOCKS5 proxy (bind:port)"@,
        "  -H <spec>        HTTP CONNECT proxy (bind:port)"@,
        "  -E <file>        Log file"@,
        "  -Q <what>        List supported algorithms (cipher|mac|kex|compression|key|help)"@,
        "  -f               Fork to background"@,
        "  -g               Allow remote hosts to connect local forwards (0.0.0.0)"@,
        "  -i <file>        Identity file"@,
        "  -J <jump>        Proxy jump"@,
        "  -L <spec>        Local forward ([bind:]port:host:port)"@,
        "  -l <user>        Login user"@,
        "  -N               No command (forward only)"@,
        "  -n               Redirect stdin from /dev/null"@,
        "  -o <k=v>         SSH option"@,
        "  -O <cmd>         Control command on -S master (check|exit|stop)"@,
        "  -p <port>        SSH port"@,
        "  -q               Quiet"@,
        "  -R <spec>        Remote forward ([bind:]port:host:port)"@,
        "  -S <path>        Control socket path (master/resume; Unix only)"@,
        "  -T               Disable PTY allocation (overrides -t)"@,
        "  -t               Force PTY"@,
        "  -v/-vv/-vvv      Verbose"@,
        "  -V/--version     Version"@,
        "  -y               Accept any host key (no check, no persist)"@,
        "  --connect-timeout <s>"@,
        "  --exec-env <VAR=val>  Set env on remote"@,
        "  --identity-passphrase   Key passphrase (or @file)"@,
        "  --identity-passphrase-file  Read passphrase from file"@,
        "  --password <pw>  SSH password (or @file)"@,
        "  --password-file   Read password from file"@,
        "  --timeout <s>    Inactivity timeout"@,
        "  --push <l>:<r>   Upload file/dir"@,
        "  --pull <r>:<l>   Download file/dir"@,
        "  --rsync <l>:<r>  Smart sync (mtime/size + copia delta)"@,
        ""@,
        "EXAMPLE: passhrs -i ~/.ssh/id_ed25519 user@host cmd"@,
        "         passhrs --push script.sh:/tmp/s.sh user@host bash /tmp/s.sh"@,
        "         passhrs -N -f -L 8118:localhost:8118 user@host"@,
    ]
}

/// The lines of the help text.
pub fn help_lines() -> (r: Vec<&'static str>)
    ensures
        r@.map_values(|s: &'static str| s@) == help_text(),
{
    let lines: Vec<&'static str> = vec![
        "passhrs - SSH automation tool (russh-based, SSH-compatible CLI)",
        "",
        "USAGE:  passhrs [OPTIONS] [user@]host[:port] [command...]",
        "",
        "OPTIONS:",
        "  -4, -6           IPv4/IPv6 only",
        "  -A, -a           Agent forward on/off",
        "  -b <address>     Source bind address for SSH connection (or -o BindAddress=)",
        "  -c <list>        Cipher spec (comma-sep, priority order)",
        "  -m <list>        MAC spec (comma-sep, priority order)",
        "  -C               Compression",
        "  -D <spec>        SOCKS5 proxy (bind:port)",
        "  -H <spec>        HTTP CONNECT proxy (bind:port)",
        "  -E <file>        Log file",
        "  -Q <what>        List supported algorithms (cipher|mac|kex|compression|key|help)",
        "  -f               Fork to background",
        "  -g               Allow remote hosts to connect local forwards (0.0.0.0)",
        "  -i <file>        Identity file",
        "  -J <jump>        Proxy jump",
        "  -L <spec>        Local forward ([bind:]port:host:port)",
        "  -l <user>        Login user",
        "  -N               No command (forward only)",
        "  -n               Redirect stdin from /dev/null",
        "  -o <k=v>         SSH option",
        "  -O <cmd>         Control command on -S master (check|exit|stop)",
        "  -p <port>        SSH port",
        "  -q               Quiet",
        "  -R <spec>        Remote forward ([bind:]port:host:port)",
        "  -S <path>        Control socket path (master/resume; Unix only)",
        "  -T               Disable PTY allocation (overrides -t)",
        "  -t               Force PTY",
        "  -v/-vv/-vvv      Verbose",
        "  -V/--version     Version",
        "  -y               Accept any host key (no check, no persist)",
        "  --connect-timeout <s>",
        "  --exec-env <VAR=val>  Set env on remote",
        "  --identity-passphrase   Key passphrase (or @file)",
        "  --identity-passphrase-file  Read passphrase from file",
        "  --password <pw>  SSH password (or @file)",
        "  --password-file   Read password from file",
        "  --timeout <s>    Inactivity timeout",
        "  --push <l>:<r>   Upload file/dir",
        "  --pull <r>:<l>   Download file/dir",
        "  --rsync <l>:<r>  Smart sync (mtime/size + copia delta)",
        "",
        "EXAMPLE: passhrs -i ~/.ssh/id_ed25519 user@host cmd",
        "         passhrs --push script.sh:/tmp/s.sh user@host bash /tmp/s.sh",
        "         passhrs -N -f -L 8118:localhost:8118 user@host",
    ];
    assert(lines@.map_values(|s: &'static str| s@) =~= help_text());
    lines
}

// ---------------------------------------------------------------------
// Laws
// ---------------------------------------------------------------------

proof fn decimal_port(port: u16)
    ensures
        number_u16(decimal(port as nat)) == Some(port),
        decimal(port as nat).len() > 0,
        forall|c: char| !('0' <= c <= '9') ==> !(#[trigger] decimal(port as nat).contains(c)),
        forall|i: int| 0 <= i < decimal(port as nat).len() ==> '0' <= #[trigger] decimal(
            port as nat,
        )[i] <= '9',
{
    let d = decimal(port as nat);
    crate::number::decimal_denotes(port as nat);
    crate::number::decimal_reads_back(port as nat, 0xffff);
    assert forall|i: int| 0 <= i < d.len() implies '0' <= #[trigger] d[i] <= '9' by {
        assert(crate::number::is_digit(d[i]));
    }
}

/// `user@host:port` is read as just that, whatever the user is called,
/// unless the host holds an `@` or begins with a bracket.
pub proof fn destination_reads_back(user: Seq<char>, host: Seq<char>, port: u16)
    requires
        !host.contains('@'),
        host.len() > 0 ==> host[0] != '[',
    ensures
        destination(user + seq!['@'] + (host + seq![':'] + decimal(port as nat))) == Ok::<
            (Seq<char>, Option<Seq<char>>, u16),
            SpecError,
        >((host, Some(user), port)),
{
    let d = decimal(port as nat);
    decimal_port(port);
    let rest = host + seq![':'] + d;
    assert(!rest.contains('@')) by {
        if rest.contains('@') {
            let i = choose|i: int| 0 <= i < rest.len() && rest[i] == '@';
            if i < host.len() {
                assert(host[i] == '@');
            } else if i > host.len() {
                assert(d[i - host.len() - 1] == '@');
            }
        }
    }
    cut_last_rejoins(user, '@', rest);
    cut_last_rejoins(host, ':', d);
    assert(rest[0] != '[');
}

/// A bracketed host is read without its brackets, colons in it and all.
pub proof fn bracketed_destination_reads_back(host: Seq<char>, port: u16)
    requires
        !host.contains('@'),
        !host.contains(']'),
    ensures
        destination(seq!['['] + (host + seq![']'] + (seq![':'] + decimal(port as nat)))) == Ok::<
            (Seq<char>, Option<Seq<char>>, u16),
            SpecError,
        >((host, None, port)),
{
    let d = decimal(port as nat);
    decimal_port(port);
    let tail = seq![':'] + d;
    let inner = host + seq![']'] + tail;
    let s = seq!['['] + inner;
    assert(!s.contains('@')) by {
        if s.contains('@') {
            let i = choose|i: int| 0 <= i < s.len() && s[i] == '@';
            if 0 < i <= host.len() {
                assert(host[i - 1] == '@');
            } else if i > host.len() + 2 {
                assert(d[i - host.len() - 3] == '@');
            }
        }
    }
    crate::text::cut_needs_separator(s, '@');
    assert(s.skip(1) =~= inner);
    cut_first_rejoins(host, ']', tail);
    reveal_with_fuel(strip_front, 3);
    assert(tail.skip(1) =~= d);
    assert(d[0] != ':');
}

/// A bare host is read as itself, with the default port and no user.
pub proof fn bare_destination_reads_back(host: Seq<char>)
    requires
        !host.contains('@'),
        !host.contains(':'),
        host.len() > 0 ==> host[0] != '[',
    ensures
        destination(host) == Ok::<(Seq<char>, Option<Seq<char>>, u16), SpecError>(
            (host, None, DEFAULT_PORT),
        ),
{
    crate::text::cut_needs_separator(host, '@');
    crate::text::cut_needs_separator(host, ':');
}

/// `user@host:port` of a jump host is read as just that.
pub proof fn proxy_jump_reads_back(user: Seq<char>, host: Seq<char>, port: u16)
    requires
        !host.contains('@'),
        host.len() > 0 ==> host[0] != '[',
        user.len() > 0 ==> !is_white(user[0]),
    ensures
        proxy_jump(user + seq!['@'] + (host + seq![':'] + decimal(port as nat))) == Ok::<
            ProxyJumpModel,
            SpecError,
        >(ProxyJumpModel { user: Some(user), host, port }),
{
    let d = decimal(port as nat);
    decimal_port(port);
    let rest = host + seq![':'] + d;
    let s = user + seq!['@'] + rest;
    assert(!rest.contains('@')) by {
        if rest.contains('@') {
            let i = choose|i: int| 0 <= i < rest.len() && rest[i] == '@';
            if i < host.len() {
                assert(host[i] == '@');
            } else if i > host.len() {
                assert(d[i - host.len() - 1] == '@');
            }
        }
    }
    assert(!is_white(s[0]));
    assert(s.last() == d.last());
    crate::text::trimmed_keeps(s);
    cut_last_rejoins(user, '@', rest);
    cut_last_rejoins(host, ':', d);
}

/// `port:host:hostport` is read as just that: the bind port never becomes
/// part of the host, and the bind address is the default.
pub proof fn forward_reads_back(bind: u16, host: Seq<char>, target: u16, gateway_ports: bool)
    requires
        host.len() > 0 ==> host[0] != '[',
    ensures
        forward(
            decimal(bind as nat) + seq![':'] + (host + seq![':'] + decimal(target as nat)),
            gateway_ports,
        ) == Ok::<ForwardModel, SpecError>(
            ForwardModel {
                bind_addr: default_bind(gateway_ports),
                bind_port: bind,
                target_host: host,
                target_port: target,
            },
        ),
{
    let b = decimal(bind as nat);
    let t = decimal(target as nat);
    decimal_port(bind);
    decimal_port(target);
    let rest = host + seq![':'] + t;
    let s = b + seq![':'] + rest;
    assert(s[0] == b[0]);
    assert(s.last() == t.last());
    crate::text::trimmed_keeps(s);
    cut_first_rejoins(b, ':', rest);
    cut_last_rejoins(host, ':', t);
    assert(rest[0] != '[');
}

/// Gateway ports change nothing but the default bind address: whether a
/// forward is read, its ports, its host and an explicit bind address are the
/// same with and without them.
pub proof fn gateway_ports_touch_default_bind_only(spec: Seq<char>)
    ensures
        match (forward(spec, false), forward(spec, true)) {
            (Ok(a), Ok(b)) => {
                &&& a == b || (a.bind_addr == "127.0.0.1"@ && b.bind_addr == "0.0.0.0"@)
                &&& a.bind_port == b.bind_port
                &&& a.target_host == b.target_host
                &&& a.target_port == b.target_port
            },
            (Err(a), Err(b)) => a == b,
            _ => false,
        },
        match (dynamic_forward(spec, false), dynamic_forward(spec, true)) {
            (Ok(a), Ok(b)) => {
                &&& a == b || (a.bind_addr == "127.0.0.1"@ && b.bind_addr == "0.0.0.0"@)
                &&& a.bind_port == b.bind_port
            },
            (Err(a), Err(b)) => a == b,
            _ => false,
        },
{
}

/// An explicit bind address wins over gateway ports.
pub proof fn explicit_bind_wins(bind: Seq<char>, rest: Seq<char>, gateway_ports: bool)
    requires
        !bind.contains(':'),
        bind.len() > 0 ==> bind[0] != '[' && !is_white(bind[0]),
        number_u16(bind) is None,
    ensures
        match forward(bind + seq![':'] + rest, gateway_ports) {
            Ok(f) => f.bind_addr == bind,
            Err(_) => true,
        },
        match dynamic_forward(bind + seq![':'] + rest, gateway_ports) {
            Ok(f) => f.bind_addr == bind,
            Err(_) => true,
        },
{
    let s = bind + seq![':'] + rest;
    cut_first_rejoins(bind, ':', rest);
    assert(!is_white(s[0]));
    assert(trim_front(s) == s);
    let t = trimmed(s);
    trim_back_is_prefix(s, bind.len() as int);
    assert(t.len() > bind.len());
    let tail = t.skip(bind.len() as int + 1);
    assert(t =~= bind + seq![':'] + tail);
    cut_first_rejoins(bind, ':', tail);
    assert(t[0] != '[');
}

proof fn trim_back_is_prefix(s: Seq<char>, i: int)
    requires
        0 <= i < s.len(),
        !is_white(s[i]),
    ensures
        i < crate::text::trim_back(s).len() <= s.len(),
        crate::text::trim_back(s) == s.take(crate::text::trim_back(s).len() as int),
    decreases s.len(),
{
    if is_white(s.last()) {
        trim_back_is_prefix(s.drop_last(), i);
        let n = crate::text::trim_back(s).len() as int;
        assert(s.drop_last().take(n) =~= s.take(n));
    } else {
        assert(s.take(s.len() as int) =~= s);
    }
}

/// The last value given for a key is the one that counts.
pub proof fn last_option_wins(pairs: Seq<(Seq<char>, Seq<char>)>, i: int)
    requires
        0 <= i < pairs.len(),
        forall|j: int| i < j < pairs.len() ==> (#[trigger] pairs[j]).0 != pairs[i].0,
    ensures
        pair_map(pairs).dom().contains(pairs[i].0),
        pair_map(pairs)[pairs[i].0] == pairs[i].1,
    decreases pairs.len(),
{
    if i < pairs.len() - 1 {
        let front = pairs.drop_last();
        assert forall|j: int| i < j < front.len() implies (#[trigger] front[j]).0
            != front[i].0 by {
            assert(front[j] == pairs[j]);
        }
        last_option_wins(front, i);
        assert(pairs.last() == pairs[pairs.len() - 1]);
    }
}

/// `bind:port` of a proxy listener is read as just that; a port alone listens
/// on loopback, or on every interface with gateway ports.
pub proof fn listener_reads_back(bind: Seq<char>, port: u16, gateway_ports: bool)
    requires
        !bind.contains(':'),
    ensures
        dynamic_forward(bind + seq![':'] + decimal(port as nat), gateway_ports) == Ok::<
            DynamicForwardModel,
            SpecError,
        >(DynamicForwardModel { bind_addr: bind, bind_port: port }),
        dynamic_forward(decimal(port as nat), gateway_ports) == Ok::<
            DynamicForwardModel,
            SpecError,
        >(
            DynamicForwardModel {
                bind_addr: if gateway_ports {
                    "0.0.0.0"@
                } else {
                    "127.0.0.1"@
                },
                bind_port: port,
            },
        ),
{
    let d = decimal(port as nat);
    decimal_port(port);
    cut_first_rejoins(bind, ':', d);
    crate::text::cut_needs_separator(d, ':');
}

/// A proxy listener whose port is no number that fits in 16 bits is refused,
/// and no other is.
pub proof fn listener_needs_a_port(bind: Seq<char>, port: Seq<char>, gateway_ports: bool)
    requires
        !bind.contains(':'),
    ensures
        number_u16(port) is None <==> dynamic_forward(bind + seq![':'] + port, gateway_ports)
            == Err::<DynamicForwardModel, SpecError>(SpecError::SocksPort),
        number_u16(bind) is None <==> dynamic_forward(bind, gateway_ports) == Err::<
            DynamicForwardModel,
            SpecError,
        >(SpecError::SocksPort),
        number_u16(port) matches Some(p) ==> dynamic_forward(
            bind + seq![':'] + port,
            gateway_ports,
        ) == Ok::<DynamicForwardModel, SpecError>(
            DynamicForwardModel { bind_addr: bind, bind_port: p },
        ),
{
    cut_first_rejoins(bind, ':', port);
    crate::text::cut_needs_separator(bind, ':');
}

/// `bind:port:host:hostport` is read as just that, gateway ports or not.
pub proof fn bound_forward_reads_back(
    bind: Seq<char>,
    port: u16,
    host: Seq<char>,
    target: u16,
    gateway_ports: bool,
)
    requires
        !bind.contains(':'),
        bind.len() > 0 ==> bind[0] != '[' && !is_white(bind[0]),
        number_u16(bind) is None,
        host.len() > 0 ==> host[0] != '[',
    ensures
        forward(
            bind + seq![':'] + (decimal(port as nat) + seq![':'] + (host + seq![':'] + decimal(
                target as nat,
            ))),
            gateway_ports,
        ) == Ok::<ForwardModel, SpecError>(
            ForwardModel {
                bind_addr: bind,
                bind_port: port,
                target_host: host,
                target_port: target,
            },
        ),
{
    let b = decimal(port as nat);
    let t = decimal(target as nat);
    decimal_port(port);
    decimal_port(target);
    let rest = host + seq![':'] + t;
    let core = b + seq![':'] + rest;
    let s = bind + seq![':'] + core;
    assert(s.last() == t.last());
    assert(!is_white(s[0]));
    crate::text::trimmed_keeps(s);
    cut_first_rejoins(bind, ':', core);
    cut_first_rejoins(b, ':', rest);
    cut_last_rejoins(host, ':', t);
    assert(rest[0] != '[');
    assert(s[0] != '[');
}

/// Brackets around the bind address and around the target host of a forward are
/// dropped, and what is between them is taken as it is, colons and all.
pub proof fn bracketed_forward_reads_back(
    bind: Seq<char>,
    port: u16,
    host: Seq<char>,
    target: u16,
    gateway_ports: bool,
)
    requires
        !bind.contains(']'),
        !host.contains(']'),
    ensures
        forward(
            seq!['['] + (bind + seq![']'] + (seq![':'] + (decimal(port as nat) + seq![':'] + (
            seq!['['] + (host + seq![']'] + (seq![':'] + decimal(target as nat))))))),
            gateway_ports,
        ) == Ok::<ForwardModel, SpecError>(
            ForwardModel {
                bind_addr: bind,
                bind_port: port,
                target_host: host,
                target_port: target,
            },
        ),
{
    let b = decimal(port as nat);
    let t = decimal(target as nat);
    decimal_port(port);
    decimal_port(target);
    let end = seq![':'] + t;
    let inner = host + seq![']'] + end;
    let rest = seq!['['] + inner;
    let core = b + seq![':'] + rest;
    let tail = seq![':'] + core;
    let front = bind + seq![']'] + tail;
    let s = seq!['['] + front;
    assert(s.last() == t.last());
    assert(s[0] == '[');
    crate::text::trimmed_keeps(s);
    assert(s.skip(1) =~= front);
    cut_first_rejoins(bind, ']', tail);
    reveal_with_fuel(strip_front, 3);
    assert(tail.skip(1) =~= core);
    assert(core[0] == b[0]);
    cut_first_rejoins(b, ':', rest);
    assert(rest.skip(1) =~= inner);
    cut_first_rejoins(host, ']', end);
    assert(end.skip(1) =~= t);
    assert(t[0] != ':');
}

/// A forward is refused with what is wrong with it: a port that is no number
/// that fits in 16 bits, at either end; a target that is missing; a bracket that
/// is not closed; a lone text that is no port.
pub proof fn bad_forwards_are_refused(
    bind: Seq<char>,
    port: u16,
    host: Seq<char>,
    bad: Seq<char>,
    gateway_ports: bool,
)
    requires
        host.len() > 0,
        host[0] != '[',
        bad.len() > 0,
        bad[0] != '[',
        !bad.contains(':'),
        number_u16(bad) is None,
        !is_white(bad[0]),
        !is_white(bad.last()),
        bind.len() > 0,
        bind[0] != '[',
        !is_white(bind[0]),
        !bind.contains(':'),
        number_u16(bind) is None,
    ensures
        forward(
            decimal(port as nat) + seq![':'] + (host + seq![':'] + bad),
            gateway_ports,
        ) == Err::<ForwardModel, SpecError>(SpecError::ForwardTargetPort),
        forward(
            bind + seq![':'] + (bad + seq![':'] + (host + seq![':'] + decimal(port as nat))),
            gateway_ports,
        ) == Err::<ForwardModel, SpecError>(SpecError::ForwardBindPort),
        forward(decimal(port as nat) + seq![':'] + bad, gateway_ports) == Err::<
            ForwardModel,
            SpecError,
        >(SpecError::ForwardTarget),
        forward(decimal(port as nat), gateway_ports) == Err::<ForwardModel, SpecError>(
            SpecError::ForwardTarget,
        ),
        forward(bad, gateway_ports) == Err::<ForwardModel, SpecError>(SpecError::ForwardShape),
        !bad.contains(']') ==> forward(seq!['['] + bad, gateway_ports) == Err::<
            ForwardModel,
            SpecError,
        >(SpecError::ForwardBindBracket),
        !bad.contains(']') ==> forward(
            decimal(port as nat) + seq![':'] + (seq!['['] + bad),
            gateway_ports,
        ) == Err::<ForwardModel, SpecError>(SpecError::ForwardTargetBracket),
{
    let d = decimal(port as nat);
    decimal_port(port);
    let rest = host + seq![':'] + bad;
    let s = d + seq![':'] + rest;
    assert(s[0] == d[0] && s.last() == bad.last());
    crate::text::trimmed_keeps(s);
    cut_first_rejoins(d, ':', rest);
    cut_last_rejoins(host, ':', bad);
    assert(rest[0] == host[0]);

    let target = host + seq![':'] + d;
    let core = bad + seq![':'] + target;
    let w = bind + seq![':'] + core;
    assert(w[0] == bind[0] && w.last() == d.last());
    crate::text::trimmed_keeps(w);
    cut_first_rejoins(bind, ':', core);
    cut_first_rejoins(bad, ':', target);

    let short = d + seq![':'] + bad;
    assert(short[0] == d[0] && short.last() == bad.last());
    crate::text::trimmed_keeps(short);
    cut_first_rejoins(d, ':', bad);
    crate::text::cut_needs_separator(bad, ':');

    assert(d.last() == d[d.len() - 1]);
    crate::text::trimmed_keeps(d);
    crate::text::cut_needs_separator(d, ':');
    crate::text::trimmed_keeps(bad);

    let open = seq!['['] + bad;
    assert(open[0] == '[' && open.last() == bad.last());
    crate::text::trimmed_keeps(open);
    assert(open.skip(1) =~= bad);
    let late = d + seq![':'] + open;
    assert(late[0] == d[0] && late.last() == bad.last());
    crate::text::trimmed_keeps(late);
    cut_first_rejoins(d, ':', open);
    if !bad.contains(']') {
        crate::text::cut_needs_separator(bad, ']');
    }
}

/// `user@host` and `user@[host]` have the default port, 22; so does a bare host.
pub proof fn destinations_default_to_port_22(user: Seq<char>, host: Seq<char>)
    requires
        !host.contains('@'),
    ensures
        !host.contains(':') && (host.len() > 0 ==> host[0] != '[') ==> destination(
            user + seq!['@'] + host,
        ) == Ok::<(Seq<char>, Option<Seq<char>>, u16), SpecError>((host, Some(user), 22)),
        !host.contains(':') && (host.len() > 0 ==> host[0] != '[') ==> destination(host) == Ok::<
            (Seq<char>, Option<Seq<char>>, u16),
            SpecError,
        >((host, None, 22)),
        !host.contains(']') ==> destination(
            user + seq!['@'] + (seq!['['] + (host + seq![']'] + Seq::empty())),
        ) == Ok::<(Seq<char>, Option<Seq<char>>, u16), SpecError>((host, Some(user), 22)),
{
    cut_last_rejoins(user, '@', host);
    crate::text::cut_needs_separator(host, '@');
    if !host.contains(':') {
        crate::text::cut_needs_separator(host, ':');
    }
    let inner = host + seq![']'] + Seq::<char>::empty();
    let rest = seq!['['] + inner;
    assert(!rest.contains('@')) by {
        if rest.contains('@') {
            let i = choose|i: int| 0 <= i < rest.len() && rest[i] == '@';
            if 0 < i <= host.len() {
                assert(host[i - 1] == '@');
            }
        }
    }
    cut_last_rejoins(user, '@', rest);
    assert(rest.skip(1) =~= inner);
    if !host.contains(']') {
        cut_first_rejoins(host, ']', Seq::empty());
    }
}

/// A destination with a port that is no number that fits in 16 bits is refused,
/// and so is one that opens a bracket and does not close it.
pub proof fn bad_destinations_are_refused(host: Seq<char>, port: Seq<char>)
    requires
        !host.contains('@'),
        !port.contains('@'),
        !port.contains(':'),
    ensures
        number_u16(port) is None && (host.len() > 0 ==> host[0] != '[') ==> destination(
            host + seq![':'] + port,
        ) == Err::<(Seq<char>, Option<Seq<char>>, u16), SpecError>(SpecError::DestinationPort),
        !host.contains(']') ==> destination(seq!['['] + host) == Err::<
            (Seq<char>, Option<Seq<char>>, u16),
            SpecError,
        >(SpecError::DestinationBracket),
{
    let s = host + seq![':'] + port;
    assert(!s.contains('@')) by {
        if s.contains('@') {
            let i = choose|i: int| 0 <= i < s.len() && s[i] == '@';
            if i < host.len() {
                assert(host[i] == '@');
            } else if i > host.len() {
                assert(port[i - host.len() - 1] == '@');
            }
        }
    }
    crate::text::cut_needs_separator(s, '@');
    cut_last_rejoins(host, ':', port);
    let open = seq!['['] + host;
    assert(!open.contains('@')) by {
        if open.contains('@') {
            let i = choose|i: int| 0 <= i < open.len() && open[i] == '@';
            assert(host[i - 1] == '@');
        }
    }
    crate::text::cut_needs_separator(open, '@');
    assert(open.skip(1) =~= host);
    if !host.contains(']') {
        crate::text::cut_needs_separator(host, ']');
    }
    if host.len() > 0 {
        assert(s[0] == host[0]);
    } else {
        assert(s[0] == ':');
    }
}

/// A jump host without user and port is the host itself, on port 22; with a port
/// in brackets the brackets are dropped; a port that is no number is refused.
pub proof fn jump_hosts_read_back(host: Seq<char>, port: u16, bad: Seq<char>)
    requires
        host.len() > 0,
        !host.contains('@'),
        !is_white(host[0]),
        !is_white(host.last()),
        host[0] != '[',
        host.last() != ']',
    ensures
        !host.contains(':') ==> proxy_jump(host) == Ok::<ProxyJumpModel, SpecError>(
            ProxyJumpModel { user: None, host, port: 22 },
        ),
        proxy_jump(seq!['['] + host + seq![']'] + seq![':'] + decimal(port as nat)) == Ok::<
            ProxyJumpModel,
            SpecError,
        >(ProxyJumpModel { user: None, host, port }),
        number_u16(bad) is None && bad.len() > 0 && !bad.contains(':') && !bad.contains('@')
            && !is_white(bad.last()) ==> proxy_jump(host + seq![':'] + bad) == Err::<
            ProxyJumpModel,
            SpecError,
        >(SpecError::JumpPort),
{
    crate::text::trimmed_keeps(host);
    crate::text::cut_needs_separator(host, '@');
    if !host.contains(':') {
        crate::text::cut_needs_separator(host, ':');
    }
    let d = decimal(port as nat);
    decimal_port(port);
    let closed = seq!['['] + host + seq![']'];
    let s = closed + seq![':'] + d;
    assert(!s.contains('@')) by {
        if s.contains('@') {
            let i = choose|i: int| 0 <= i < s.len() && s[i] == '@';
            if 0 < i <= host.len() {
                assert(host[i - 1] == '@');
            } else if i > host.len() + 2 {
                assert(d[i - host.len() - 3] == '@');
            }
        }
    }
    assert(s[0] == '[' && s.last() == d.last());
    crate::text::trimmed_keeps(s);
    crate::text::cut_needs_separator(s, '@');
    cut_last_rejoins(closed, ':', d);
    reveal_with_fuel(strip_front, 3);
    reveal_with_fuel(strip_back, 3);
    assert(closed.skip(1) =~= host + seq![']']);
    assert((host + seq![']']).drop_last() =~= host);
    if number_u16(bad) is None && bad.len() > 0 && !bad.contains(':') && !bad.contains('@')
        && !is_white(bad.last()) {
        let w = host + seq![':'] + bad;
        assert(!w.contains('@')) by {
            if w.contains('@') {
                let i = choose|i: int| 0 <= i < w.len() && w[i] == '@';
                if i < host.len() {
                    assert(host[i] == '@');
                } else if i > host.len() {
                    assert(bad[i - host.len() - 1] == '@');
                }
            }
        }
        assert(w.last() == bad.last());
        crate::text::trimmed_keeps(w);
        crate::text::cut_needs_separator(w, '@');
        cut_last_rejoins(host, ':', bad);
    }
}

/// An option `key=value` gives the key, in lower case, just that value; of
/// several the last counts. An option without an equals sign changes nothing.
pub proof fn options_are_kept(options: Seq<Seq<char>>, key: Seq<char>, value: Seq<char>)
    requires
        !key.contains('='),
    ensures
        pair_map(option_pairs(options.push(key + seq!['='] + value))) == pair_map(
            option_pairs(options),
        ).insert(unicode_lower(key), value),
        option_pairs(options.push(key)) == option_pairs(options),
        option_pairs(Seq::empty()) == Seq::<(Seq<char>, Seq<char>)>::empty(),
        pair_map(Seq::empty()) == Map::<Seq<char>, Seq<char>>::empty(),
{
    let option = key + seq!['='] + value;
    cut_first_rejoins(key, '=', value);
    assert(options.push(option).drop_last() =~= options);
    assert(options.push(key).drop_last() =~= options);
    crate::text::cut_needs_separator(key, '=');
    let front = option_pairs(options);
    let pair = (unicode_lower(key), value);
    assert(front.push(pair).drop_last() =~= front);
}

/// An ASCII character is the escape character itself, unless it is a caret; a
/// caret and a letter, of either case, are the control character of that
/// letter; `^?` is delete and `^^` the caret; `none` in any letter case is no
/// escape character. Nothing else is taken.
pub proof fn escape_characters_read_back(c: char, letter: char, n: nat)
    requires
        c <= '\u{7f}',
        !is_white(c),
        c != '^',
        n < 26,
        letter as u32 == 97 + n || letter as u32 == 65 + n,
    ensures
        escape_char(seq![c]) == Ok::<Option<u8>, EscapeError>(Some(c as u8)),
        escape_char(seq!['^', letter]) == Ok::<Option<u8>, EscapeError>(Some((n + 1) as u8)),
        escape_char(seq!['^', '?']) == Ok::<Option<u8>, EscapeError>(Some(127)),
        escape_char(seq!['^', '^']) == Ok::<Option<u8>, EscapeError>(Some(94)),
        escape_char("none"@) == Ok::<Option<u8>, EscapeError>(None),
        escape_char(Seq::empty()) == Err::<Option<u8>, EscapeError>(EscapeError::Empty),
        escape_char(seq!['^']) == Err::<Option<u8>, EscapeError>(EscapeError::CaretLength),
        escape_char(seq![c, letter]) == Err::<Option<u8>, EscapeError>(EscapeError::NotOneByte),
        escape_in_force(None) == Some(126u8),
        escape_in_force(Some(seq![c])) == Some(c as u8),
        escape_in_force(Some("none"@)) is None,
        escape_in_force(Some(seq![c, letter])) == Some(126u8),
{
    reveal_strlit("none");
    let none = "none"@;
    assert(ascii_lower(none) =~= none);
    crate::text::trimmed_keeps(none);
    crate::text::trimmed_keeps(seq![c]);
    crate::text::trimmed_keeps(seq!['^', letter]);
    crate::text::trimmed_keeps(seq!['^', '?']);
    crate::text::trimmed_keeps(seq!['^', '^']);
    crate::text::trimmed_keeps(seq!['^']);
    crate::text::trimmed_keeps(seq![c, letter]);
    assert(ascii_lower(seq![c]).len() == 1);
    assert(ascii_lower(seq!['^', letter]).len() == 2);
    assert(ascii_lower(seq!['^', '?']).len() == 2);
    assert(ascii_lower(seq!['^', '^']).len() == 2);
    assert(ascii_lower(seq!['^']).len() == 1);
    assert(ascii_lower(seq![c, letter]).len() == 2);
    assert(seq!['^', letter].skip(1) =~= seq![letter]);
    assert(seq!['^', '?'].skip(1) =~= seq!['?']);
    assert(seq!['^', '^'].skip(1) =~= seq!['^']);
    let empty = Seq::<char>::empty();
    assert(trimmed(empty) =~= empty);
    assert(ascii_lower(empty).len() == 0);
}

/// A user before a destination or a jump host adds the user and changes nothing
/// else: neither host nor port, nor whether it is read.
pub proof fn users_change_nothing_else(user: Seq<char>, rest: Seq<char>)
    requires
        !rest.contains('@'),
        rest.len() > 0,
        !is_white(rest[0]),
        !is_white(rest.last()),
        user.len() > 0 ==> !is_white(user[0]),
    ensures
        match (destination(rest), destination(user + seq!['@'] + rest)) {
            (Ok((host, none, port)), Ok((same_host, some, same_port))) => none is None && some
                == Some(user) && host == same_host && port == same_port,
            (Err(a), Err(b)) => a == b,
            _ => false,
        },
        match (proxy_jump(rest), proxy_jump(user + seq!['@'] + rest)) {
            (Ok(a), Ok(b)) => a.user is None && b.user == Some(user) && a.host == b.host && a.port
                == b.port,
            (Err(a), Err(b)) => a == b,
            _ => false,
        },
{
    let s = user + seq!['@'] + rest;
    cut_last_rejoins(user, '@', rest);
    crate::text::cut_needs_separator(rest, '@');
    assert(s.last() == rest.last());
    assert(!is_white(s[0]));
    crate::text::trimmed_keeps(s);
    crate::text::trimmed_keeps(rest);
}

/// `host:port` without a user is read as just that, as a destination and as a
/// jump host.
pub proof fn host_and_port_read_back(host: Seq<char>, port: u16)
    requires
        host.len() > 0,
        !host.contains('@'),
        host[0] != '[',
        !is_white(host[0]),
    ensures
        destination(host + seq![':'] + decimal(port as nat)) == Ok::<
            (Seq<char>, Option<Seq<char>>, u16),
            SpecError,
        >((host, None, port)),
        proxy_jump(host + seq![':'] + decimal(port as nat)) == Ok::<ProxyJumpModel, SpecError>(
            ProxyJumpModel { user: None, host, port },
        ),
{
    let d = decimal(port as nat);
    decimal_port(port);
    let s = host + seq![':'] + d;
    assert(!s.contains('@')) by {
        if s.contains('@') {
            let i = choose|i: int| 0 <= i < s.len() && s[i] == '@';
            if i < host.len() {
                assert(host[i] == '@');
            } else if i > host.len() {
                assert(d[i - host.len() - 1] == '@');
            }
        }
    }
    crate::text::cut_needs_separator(s, '@');
    cut_last_rejoins(host, ':', d);
    assert(s[0] == host[0] && s.last() == d.last());
    crate::text::trimmed_keeps(s);
}

/// A bind address before a forward, bare or in brackets, sets the bind address
/// and changes nothing else; and white space around a forward does not count.
pub proof fn bind_addresses_change_nothing_else(
    bind: Seq<char>,
    port: u16,
    rest: Seq<char>,
    gateway_ports: bool,
)
    requires
        rest.len() > 0,
        !is_white(rest.last()),
        bind.len() > 0,
        bind[0] != '[',
        !is_white(bind[0]),
        !bind.contains(':'),
        !bind.contains(']'),
        number_u16(bind) is None,
    ensures
        ({
            let core = decimal(port as nat) + seq![':'] + rest;
            let plain = forward(core, gateway_ports);
            let bound = forward(bind + seq![':'] + core, gateway_ports);
            let closed = forward(
                seq!['['] + (bind + seq![']'] + (seq![':'] + core)),
                gateway_ports,
            );
            &&& bound == closed
            &&& match (plain, bound) {
                (Ok(a), Ok(b)) => b == (ForwardModel { bind_addr: bind, ..a }) && a.bind_addr == (
                if gateway_ports {
                    "0.0.0.0"@
                } else {
                    "127.0.0.1"@
                }) && a.bind_port == port,
                (Err(a), Err(b)) => a == b,
                _ => false,
            }
        }),
{
    let d = decimal(port as nat);
    decimal_port(port);
    let core = d + seq![':'] + rest;
    assert(core[0] == d[0] && core.last() == rest.last());
    crate::text::trimmed_keeps(core);
    cut_first_rejoins(d, ':', rest);
    let s = bind + seq![':'] + core;
    assert(s[0] == bind[0] && s.last() == rest.last());
    crate::text::trimmed_keeps(s);
    cut_first_rejoins(bind, ':', core);
    let tail = seq![':'] + core;
    let inner = bind + seq![']'] + tail;
    let w = seq!['['] + inner;
    assert(w[0] == '[' && w.last() == rest.last());
    crate::text::trimmed_keeps(w);
    assert(w.skip(1) =~= inner);
    cut_first_rejoins(bind, ']', tail);
    reveal_with_fuel(strip_front, 3);
    assert(tail.skip(1) =~= core);
}

/// The target host of a forward may stand in brackets, which are dropped.
pub proof fn bracketed_targets_read_back(
    port: u16,
    host: Seq<char>,
    target: u16,
    gateway_ports: bool,
)
    requires
        !host.contains(']'),
    ensures
        forward(
            decimal(port as nat) + seq![':'] + (seq!['['] + (host + seq![']'] + (seq![':']
                + decimal(target as nat)))),
            gateway_ports,
        ) == Ok::<ForwardModel, SpecError>(
            ForwardModel {
                bind_addr: if gateway_ports {
                    "0.0.0.0"@
                } else {
                    "127.0.0.1"@
                },
                bind_port: port,
                target_host: host,
                target_port: target,
            },
        ),
{
    let d = decimal(port as nat);
    let t = decimal(target as nat);
    decimal_port(port);
    decimal_port(target);
    let end = seq![':'] + t;
    let inner = host + seq![']'] + end;
    let rest = seq!['['] + inner;
    let s = d + seq![':'] + rest;
    assert(s[0] == d[0] && s.last() == t.last());
    crate::text::trimmed_keeps(s);
    cut_first_rejoins(d, ':', rest);
    assert(rest.skip(1) =~= inner);
    cut_first_rejoins(host, ']', end);
    reveal_with_fuel(strip_front, 3);
    assert(end.skip(1) =~= t);
    assert(t[0] != ':');
}

/// What a user is told of a spec that was refused names the spec, wherever there
/// is one to name.
pub proof fn messages_name_the_spec(e: SpecError, spec: Seq<char>)
    requires
        e != SpecError::NoDestination,
        e != SpecError::JumpPort,
        e != SpecError::SocksPort,
        spec.len() > 0,
        !is_white(spec[0]),
        !is_white(spec.last()),
    ensures
        exists|at: int|
            0 <= at && at + spec.len() <= spec_message(e, spec).len() && #[trigger] spec_message(
                e,
                spec,
            ).subrange(at, at + spec.len()) == spec,
{
    crate::text::trimmed_keeps(spec);
    let m = spec_message(e, spec);
    let front = match e {
        SpecError::DestinationPort => "invalid port in destination: "@,
        SpecError::DestinationBracket => "unclosed bracket in destination: "@,
        SpecError::ForwardBindBracket => "unclosed bracket in forward spec: "@,
        SpecError::ForwardShape => "invalid forward spec: "@,
        SpecError::ForwardTarget => "invalid forward spec: "@,
        SpecError::ForwardBindPort => "invalid bind port in forward spec: "@,
        SpecError::ForwardTargetBracket => "unclosed bracket for target host in forward spec: "@,
        SpecError::ForwardTargetPort => "invalid target port in forward spec: "@,
        _ => "invalid file spec: "@,
    };
    let n = front.len() as int;
    assert(m.subrange(n, n + spec.len()) =~= spec);
}

/// White space around a forward, a jump host or an escape character does not
/// count.
pub proof fn white_space_does_not_count(s: Seq<char>, w: char, gateway_ports: bool)
    requires
        is_white(w),
    ensures
        forward(seq![w] + s, gateway_ports) == forward(s, gateway_ports),
        forward(s.push(w), gateway_ports) == forward(s, gateway_ports),
        proxy_jump(seq![w] + s) == proxy_jump(s),
        proxy_jump(s.push(w)) == proxy_jump(s),
        escape_char(seq![w] + s) == escape_char(s),
        escape_char(s.push(w)) == escape_char(s),
{
    crate::text::trimming_drops_white_space(s, w, '!');
}

/// `none` is no escape character in whatever letter case; a caret with anything
/// but a letter, `?` or `^` behind it is refused, and so is one with more than
/// one character behind it. What is refused leaves the default in force.
pub proof fn other_escapes_are_refused(s: Seq<char>, c: char, more: Seq<char>)
    requires
        s.len() > 0,
        !is_white(s[0]),
        !is_white(s.last()),
        c <= '\u{7f}',
        !is_white(c),
        c != '?' && c != '^' && !('a' <= c <= 'z') && !('A' <= c <= 'Z'),
        more.len() > 1,
        !is_white(more.last()),
    ensures
        ascii_lower(s) == "none"@ ==> escape_char(s) == Ok::<Option<u8>, EscapeError>(None),
        escape_char(seq!['^', c]) == Err::<Option<u8>, EscapeError>(EscapeError::CaretUnknown),
        escape_char(seq!['^'] + more) == Err::<Option<u8>, EscapeError>(EscapeError::CaretLength),
        s[0] != '^' && s.len() > 1 && ascii_lower(s) != "none"@ ==> escape_char(s) == Err::<
            Option<u8>,
            EscapeError,
        >(EscapeError::NotOneByte),
        s.len() == 1 && s[0] > '\u{7f}' ==> escape_char(s) == Err::<Option<u8>, EscapeError>(
            EscapeError::NotOneByte,
        ),
        escape_char(s) is Err ==> escape_in_force(Some(s)) == Some(126u8),
        escape_char(s) matches Ok(e) ==> escape_in_force(Some(s)) == e,
{
    reveal_strlit("none");
    let none = "none"@;
    assert(none[0] == 'n' && none.len() == 4);
    crate::text::trimmed_keeps(s);
    let short = seq!['^', c];
    crate::text::trimmed_keeps(short);
    assert(short.skip(1) =~= seq![c]);
    assert(ascii_lower(short).len() == 2);
    let long = seq!['^'] + more;
    assert(long.last() == more.last() && long[0] == '^');
    crate::text::trimmed_keeps(long);
    assert(long.skip(1) =~= more);
    assert(ascii_lower(long)[0] == '^');
    assert(ascii_lower(s).len() == s.len());
}

/// The help text tells the usage, has a line for each option, and ends with
/// examples.
pub proof fn help_is_complete()
    ensures
        help_text().len() == 48,
        help_text()[2] == "USAGE:  passhrs [OPTIONS] [user@]host[:port] [command...]"@,
        help_text()[47] == "         passhrs -N -f -L 8118:localhost:8118 user@host"@,
{
}

} // verus!
