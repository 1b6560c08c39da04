//! What a run of the client does, decided from its command line.

use vstd::hash_map::StringHashMap;
use vstd::prelude::*;
use vstd::string::*;

use crate::cli::{
    destination, dynamic_forward, forward, map_texts, parse_destination, parse_dynamic_spec,
    parse_forward_spec, Cli, SpecError, DEFAULT_PORT,
};
use crate::config::ResolvedConfig;
use crate::number::{number, number_u16, parse_number, parse_u16};
use crate::paths::{
    absolute, expand_path, file_spec, is_absolute_path, is_expansion, parse_file_spec,
};
use crate::ssh::{endpoint, endpoint_text};
use crate::text::{chars_of, clone_opt, opt_text, same_text, texts};
use crate::types::{
    DynamicForwardModel, DynamicForwardSpec, ForwardModel, ForwardSpec, ProxyJumpModel,
    ProxyJumpSpec,
};

verus! {

broadcast use vstd::string::group_string_axioms;

// ---------------------------------------------------------------------
// Before anything is connected
// ---------------------------------------------------------------------

/// The arguments without those that ask for the background.
pub open spec fn without_fork(args: Seq<Seq<char>>) -> Seq<Seq<char>> {
    args.filter(|a: Seq<char>| a != "-f"@ && a != "--fork"@)
}

/// The arguments for the copy of the program that goes to the background:
/// the same, without the program's name and without those that ask for it.
pub open spec fn forked(args: Seq<Seq<char>>) -> Seq<Seq<char>> {
    if without_fork(args).len() > 0 {
        without_fork(args).skip(1)
    } else {
        Seq::empty()
    }
}

/// The arguments for the copy of the program; see [`forked`].
pub fn fork_args(args: &[String]) -> (r: Vec<String>)
    ensures
        texts(r@) == forked(texts(args@)),
        texts(r@) == (if without_fork(texts(args@)).len() > 0 {
            without_fork(texts(args@)).skip(1)
        } else {
            Seq::empty()
        }),
{
    let mut kept: Vec<String> = Vec::new();
    let mut i: usize = 0;
    assert(texts(kept@) =~= without_fork(texts(args@.take(0))));
    while i < args.len()
        invariant
            i <= args@.len(),
            texts(kept@) == without_fork(texts(args@.take(i as int))),
        decreases args@.len() - i,
    {
        let ghost before = kept@;
        proof {
            let longer = texts(args@.take(i + 1));
            assert(longer.drop_last() =~= texts(args@.take(i as int)));
            assert(longer.last() == args@[i as int]@);
            reveal(Seq::filter);
        }
        if !same_text(args[i].as_str(), "-f") && !same_text(args[i].as_str(), "--fork") {
            kept.push(args[i].clone());
            assert(texts(kept@) =~= texts(before).push(args@[i as int]@));
        }
        i = i + 1;
    }
    assert(args@.take(args@.len() as int) =~= args@);
    assert(texts(kept@).len() == kept@.len());
    if kept.len() > 0 {
        let ghost all = kept@;
        kept.remove(0);
        assert(texts(kept@) =~= texts(all).skip(1));
    } else {
        assert(texts(kept@) =~= Seq::<Seq<char>>::empty());
    }
    kept
}

/// How much is logged.
pub open spec fn level_name(debug_all: bool, quiet: bool, verbose: u8) -> Seq<char> {
    if debug_all {
        "debug"@
    } else if quiet {
        "error"@
    } else if verbose == 0 {
        "warn"@
    } else if verbose == 1 {
        "info"@
    } else if verbose == 2 {
        "debug"@
    } else {
        "trace"@
    }
}

/// How much is logged: `--debug-all` wins over `-q`, which wins over `-v`.
pub fn log_level(cli: &Cli) -> (r: &'static str)
    ensures
        r@ == level_name(cli.debug_all, cli.quiet, cli.verbose),
{
    if cli.debug_all {
        "debug"
    } else if cli.quiet {
        "error"
    } else if cli.verbose == 0 {
        "warn"
    } else if cli.verbose == 1 {
        "info"
    } else if cli.verbose == 2 {
        "debug"
    } else {
        "trace"
    }
}

/// Whether errors are shown in full rather than in one line.
pub open spec fn full_errors(verbose: u8, debug_all: bool) -> bool {
    verbose > 0 || debug_all
}

/// Whether errors are shown in full; see [`full_errors`].
pub fn shows_full_errors(cli: &Cli) -> (r: bool)
    ensures
        r == full_errors(cli.verbose, cli.debug_all),
        r == (cli.verbose > 0 || cli.debug_all),
{
    cli.verbose > 0 || cli.debug_all
}

/// The destination as given; empty where there is none.
pub open spec fn given_destination(cli: Cli) -> Seq<char> {
    match cli.destination {
        Some(d) => d@,
        None => Seq::empty(),
    }
}

/// Whether there is nothing to do: neither a destination nor a forward.
pub open spec fn idle(cli: Cli) -> bool {
    given_destination(cli).len() == 0 && cli.local_forward@.len() == 0
        && cli.remote_forward@.len() == 0 && cli.dynamic_forward@.len() == 0
}

/// Whether there is nothing to do; see [`idle`].
pub fn is_idle(cli: &Cli) -> (r: bool)
    ensures
        r == idle(*cli),
        r == (given_destination(*cli).len() == 0 && cli.local_forward@.len() == 0
            && cli.remote_forward@.len() == 0 && cli.dynamic_forward@.len() == 0),
{
    let empty: bool = match &cli.destination {
        Some(d) => d.as_str().is_empty(),
        None => true,
    };
    empty && cli.local_forward.len() == 0 && cli.remote_forward.len() == 0
        && cli.dynamic_forward.len() == 0
}

/// What an invocation is for.
#[derive(Clone, Copy, PartialEq, Eq, Structural, Debug)]
pub enum Errand {
    /// Print the help text.
    Help,
    /// List algorithms.
    Query,
    /// Send a command to a master.
    Control,
    /// Start again in the background.
    Fork,
    /// Connect.
    Connect,
}

/// What an invocation is for. The help text is also for one that has nothing
/// to do.
pub open spec fn errand_model(cli: Cli) -> Errand {
    if cli.help {
        Errand::Help
    } else if cli.query@.len() > 0 {
        Errand::Query
    } else if cli.control_command is Some {
        Errand::Control
    } else if cli.fork {
        Errand::Fork
    } else if idle(cli) {
        Errand::Help
    } else {
        Errand::Connect
    }
}

/// What an invocation is for; see [`errand_model`].
pub fn errand(cli: &Cli) -> (r: Errand)
    ensures
        r == errand_model(*cli),
        r == (if cli.help {
            Errand::Help
        } else if cli.query@.len() > 0 {
            Errand::Query
        } else if cli.control_command is Some {
            Errand::Control
        } else if cli.fork {
            Errand::Fork
        } else if given_destination(*cli).len() == 0 && cli.local_forward@.len() == 0
            && cli.remote_forward@.len() == 0 && cli.dynamic_forward@.len() == 0 {
            Errand::Help
        } else {
            Errand::Connect
        }),
{
    if cli.help {
        Errand::Help
    } else if cli.query.len() > 0 {
        Errand::Query
    } else if cli.control_command.is_some() {
        Errand::Control
    } else if cli.fork {
        Errand::Fork
    } else if is_idle(cli) {
        Errand::Help
    } else {
        Errand::Connect
    }
}

/// Where a secret comes from.
pub enum SecretPlan {
    /// There is none.
    Absent,
    /// From this file, which has to be readable.
    File(String),
    /// From this value, which may itself name a file.
    Value(String),
}

/// Where a secret comes from, over texts.
pub enum SecretPlanModel {
    Absent,
    File(Seq<char>),
    Value(Seq<char>),
}

impl View for SecretPlan {
    type V = SecretPlanModel;

    open spec fn view(&self) -> SecretPlanModel {
        match self {
            SecretPlan::Absent => SecretPlanModel::Absent,
            SecretPlan::File(p) => SecretPlanModel::File(p@),
            SecretPlan::Value(v) => SecretPlanModel::Value(v@),
        }
    }
}

/// A file option wins over a value.
pub open spec fn secret_model(file: Option<Seq<char>>, value: Option<Seq<char>>) -> SecretPlanModel {
    match file {
        Some(p) => SecretPlanModel::File(p),
        None => match value {
            Some(v) => SecretPlanModel::Value(v),
            None => SecretPlanModel::Absent,
        },
    }
}

fn secret_plan(file: &Option<String>, value: &Option<String>) -> (r: SecretPlan)
    ensures
        r@ == secret_model(opt_text(*file), opt_text(*value)),
{
    match file {
        Some(p) => SecretPlan::File(p.clone()),
        None => match value {
            Some(v) => SecretPlan::Value(v.clone()),
            None => SecretPlan::Absent,
        },
    }
}

/// Where the password comes from.
pub fn password_plan(cli: &Cli) -> (r: SecretPlan)
    ensures
        r@ == secret_model(opt_text(cli.password_file), opt_text(cli.password)),
{
    secret_plan(&cli.password_file, &cli.password)
}

/// Where the passphrase of the identity files comes from.
pub fn passphrase_plan(cli: &Cli) -> (r: SecretPlan)
    ensures
        r@ == secret_model(opt_text(cli.passphrase_file), opt_text(cli.passphrase)),
{
    secret_plan(&cli.passphrase_file, &cli.passphrase)
}

// ---------------------------------------------------------------------
// Options
// ---------------------------------------------------------------------

/// The value of an option.
pub open spec fn option_value(m: Map<Seq<char>, Seq<char>>, key: Seq<char>) -> Option<Seq<char>> {
    if m.dom().contains(key) {
        Some(m[key])
    } else {
        None
    }
}

fn get_option<'a>(opts: &'a StringHashMap<String>, key: &str) -> (r: Option<&'a String>)
    ensures
        match r {
            Some(v) => option_value(map_texts(opts@), key@) == Some(v@),
            None => option_value(map_texts(opts@), key@) is None,
        },
{
    opts.get(key)
}

/// Whether an option is `yes`.
pub open spec fn is_yes(v: Option<Seq<char>>) -> bool {
    v == Some("yes"@)
}

/// The options that govern a session.
pub struct RunOptions {
    /// Whether host keys are checked strictly.
    pub strict: bool,
    /// The known-hosts file.
    pub known_hosts: Option<String>,
    /// Seconds between keepalives.
    pub keepalive_interval: Option<u64>,
    /// How many keepalives may go unanswered.
    pub keepalive_max: Option<usize>,
    /// Whether a forward that cannot be set up ends the run.
    pub exit_on_forward_failure: bool,
    /// Whether forwards listen on every interface by default.
    pub gateway_ports: bool,
    /// The local address of the connection.
    pub bind_address: Option<String>,
    /// Seconds without traffic after which the session ends.
    pub inactivity_timeout: Option<u64>,
}

/// The options that govern a session, over texts.
pub struct RunModel {
    pub strict: bool,
    pub known_hosts: Option<Seq<char>>,
    pub keepalive_interval: Option<u64>,
    pub keepalive_max: Option<usize>,
    pub exit_on_forward_failure: bool,
    pub gateway_ports: bool,
    pub bind_address: Option<Seq<char>>,
    pub inactivity_timeout: Option<u64>,
}

impl View for RunOptions {
    type V = RunModel;

    open spec fn view(&self) -> RunModel {
        RunModel {
            strict: self.strict,
            known_hosts: opt_text(self.known_hosts),
            keepalive_interval: self.keepalive_interval,
            keepalive_max: self.keepalive_max,
            exit_on_forward_failure: self.exit_on_forward_failure,
            gateway_ports: self.gateway_ports,
            bind_address: opt_text(self.bind_address),
            inactivity_timeout: self.inactivity_timeout,
        }
    }
}

/// Seconds between keepalives where only `TCPKeepAlive` asks for them.
pub const TCP_KEEPALIVE_SECONDS: u64 = 60;

/// A number that fits in 64 bits.
pub open spec fn number_u64(v: Option<Seq<char>>) -> Option<u64> {
    match v {
        Some(s) => match number(s, u64::MAX as nat) {
            Some(n) => Some(n as u64),
            None => None,
        },
        None => None,
    }
}

/// A number that fits in a machine word.
pub open spec fn number_usize(v: Option<Seq<char>>) -> Option<usize> {
    match v {
        Some(s) => match number(s, usize::MAX as nat) {
            Some(n) => Some(n as usize),
            None => None,
        },
        None => None,
    }
}

/// Whether host keys are checked strictly: as the option says, else as the
/// configuration says, else not.
pub open spec fn strict_checking(option: Option<Seq<char>>, config: Option<bool>) -> bool {
    match option {
        Some(v) => v == "yes"@ || v == "accept-new"@,
        None => config == Some(true),
    }
}

/// A text that is there and not empty.
pub open spec fn non_empty(v: Option<Seq<char>>) -> Option<Seq<char>> {
    match v {
        Some(s) => if s.len() == 0 {
            None
        } else {
            Some(s)
        },
        None => None,
    }
}

/// The options of a run: `-o` first, then the flags of the command line,
/// then the configuration. A number that cannot be read counts as absent, an
/// empty address as not given.
pub open spec fn run_options_model(
    m: Map<Seq<char>, Seq<char>>,
    cli: Cli,
    config: crate::config::ResolvedModel,
) -> RunModel {
    RunModel {
        strict: strict_checking(
            option_value(m, "stricthostkeychecking"@),
            config.strict_host_key_checking,
        ),
        known_hosts: match option_value(m, "userknownhostsfile"@) {
            Some(p) => Some(p),
            None => config.user_known_hosts_file,
        },
        keepalive_interval: match number_u64(option_value(m, "serveraliveinterval"@)) {
            Some(n) => Some(n),
            None => if is_yes(option_value(m, "tcpkeepalive"@)) {
                Some(TCP_KEEPALIVE_SECONDS)
            } else {
                None
            },
        },
        keepalive_max: number_usize(option_value(m, "serveralivecountmax"@)),
        exit_on_forward_failure: is_yes(option_value(m, "exitonforwardfailure"@)),
        gateway_ports: match option_value(m, "gatewayports"@) {
            Some(v) => v == "yes"@,
            None => cli.gateway_ports,
        },
        bind_address: match option_value(m, "bindaddress"@) {
            Some(a) => non_empty(Some(a)),
            None => non_empty(opt_text(cli.bind_address)),
        },
        inactivity_timeout: if cli.inactivity_timeout > 0 {
            Some(cli.inactivity_timeout)
        } else {
            None
        },
    }
}

fn option_is_yes(opts: &StringHashMap<String>, key: &str) -> (r: bool)
    ensures
        r == is_yes(option_value(map_texts(opts@), key@)),
{
    match get_option(opts, key) {
        Some(v) => same_text(v.as_str(), "yes"),
        None => false,
    }
}

fn option_number(opts: &StringHashMap<String>, key: &str) -> (r: Option<u64>)
    ensures
        r == number_u64(option_value(map_texts(opts@), key@)),
{
    match get_option(opts, key) {
        Some(v) => {
            let digits = chars_of(v.as_str());
            parse_number(digits.as_slice(), u64::MAX)
        },
        None => None,
    }
}

fn option_count(opts: &StringHashMap<String>, key: &str) -> (r: Option<usize>)
    ensures
        r == number_usize(option_value(map_texts(opts@), key@)),
{
    match get_option(opts, key) {
        Some(v) => {
            let digits = chars_of(v.as_str());
            match parse_number(digits.as_slice(), usize::MAX as u64) {
                Some(n) => Some(n as usize),
                None => None,
            }
        },
        None => None,
    }
}

fn keep_non_empty(v: &String) -> (r: Option<String>)
    ensures
        opt_text(r) == non_empty(Some(v@)),
{
    if v.as_str().is_empty() {
        None
    } else {
        Some(v.clone())
    }
}

/// Gathers the options of a run; see [`run_options_model`].
pub fn run_options(
    opts: &StringHashMap<String>,
    cli: &Cli,
    config: &ResolvedConfig,
) -> (r: RunOptions)
    ensures
        r@ == run_options_model(map_texts(opts@), *cli, config@),
{
    let strict: bool = match get_option(opts, "stricthostkeychecking") {
        Some(v) => same_text(v.as_str(), "yes") || same_text(v.as_str(), "accept-new"),
        None => match config.strict_host_key_checking {
            Some(b) => b,
            None => false,
        },
    };
    let known_hosts: Option<String> = match get_option(opts, "userknownhostsfile") {
        Some(p) => Some(p.clone()),
        None => clone_opt(&config.user_known_hosts_file),
    };
    let keepalive_interval: Option<u64> = match option_number(opts, "serveraliveinterval") {
        Some(n) => Some(n),
        None => if option_is_yes(opts, "tcpkeepalive") {
            Some(TCP_KEEPALIVE_SECONDS)
        } else {
            None
        },
    };
    let gateway_ports: bool = match get_option(opts, "gatewayports") {
        Some(v) => same_text(v.as_str(), "yes"),
        None => cli.gateway_ports,
    };
    let bind_address: Option<String> = match get_option(opts, "bindaddress") {
        Some(a) => keep_non_empty(a),
        None => match &cli.bind_address {
            Some(a) => keep_non_empty(a),
            None => None,
        },
    };
    RunOptions {
        strict,
        known_hosts,
        keepalive_interval,
        keepalive_max: option_count(opts, "serveralivecountmax"),
        exit_on_forward_failure: option_is_yes(opts, "exitonforwardfailure"),
        gateway_ports,
        bind_address,
        inactivity_timeout: if cli.inactivity_timeout > 0 {
            Some(cli.inactivity_timeout)
        } else {
            None
        },
    }
}

// ---------------------------------------------------------------------
// The target
// ---------------------------------------------------------------------

/// Where a connection goes.
pub struct Target {
    pub host: String,
    pub user: String,
    pub port: u16,
}

/// Where a connection goes, over texts.
pub struct TargetModel {
    pub host: Seq<char>,
    pub user: Seq<char>,
    pub port: u16,
}

impl View for Target {
    type V = TargetModel;

    open spec fn view(&self) -> TargetModel {
        TargetModel { host: self.host@, user: self.user@, port: self.port }
    }
}

/// The target of a destination. The host is the one that the configuration
/// names for it. The user is that of the command line, then that of the
/// destination, then `root`. The port is that of `-o`, then one other than
/// the default from the command line, then that of the configuration, then
/// that of the destination.
pub open spec fn target_model(
    host: Seq<char>,
    dest_user: Option<Seq<char>>,
    dest_port: u16,
    cli_user: Option<Seq<char>>,
    cli_port: u16,
    option_port: Option<Seq<char>>,
    config_host: Option<Seq<char>>,
    config_port: Option<u16>,
) -> TargetModel {
    let option_port = match option_port {
        Some(v) => number_u16(v),
        None => None,
    };
    TargetModel {
        host: match config_host {
            Some(h) => h,
            None => host,
        },
        user: match cli_user {
            Some(u) => u,
            None => match dest_user {
                Some(u) => u,
                None => "root"@,
            },
        },
        port: match option_port {
            Some(p) => p,
            None => if cli_port != DEFAULT_PORT {
                cli_port
            } else {
                match config_port {
                    Some(p) => p,
                    None => dest_port,
                }
            },
        },
    }
}

/// What a destination comes to: its target, or an error where it cannot be read
/// or has no host.
pub open spec fn found_target(
    dest: Seq<char>,
    cli_user: Option<Seq<char>>,
    cli_port: u16,
    option_port: Option<Seq<char>>,
    config_host: Option<Seq<char>>,
    config_port: Option<u16>,
) -> Result<TargetModel, SpecError> {
    match destination(dest) {
        Err(e) => Err(e),
        Ok((host, user, port)) => if host.len() == 0 {
            Err(SpecError::NoDestination)
        } else {
            Ok(
                target_model(
                    host,
                    user,
                    port,
                    cli_user,
                    cli_port,
                    option_port,
                    config_host,
                    config_port,
                ),
            )
        },
    }
}

/// Finds the target of a run from its destination; `cli` has the settings of
/// the configuration filled in. See [`found_target`].
pub fn resolve_target(
    dest: &str,
    cli: &Cli,
    opts: &StringHashMap<String>,
    config: &ResolvedConfig,
) -> (r: Result<Target, SpecError>)
    ensures
        match found_target(
            dest@,
            opt_text(cli.user),
            cli.ssh_port,
            option_value(map_texts(opts@), "port"@),
            opt_text(config.hostname),
            config.port,
        ) {
            Err(e) => r == Err::<Target, SpecError>(e),
            Ok(m) => r matches Ok(t) && t@ == m,
        },
        r matches Ok(t) ==> (cli.user matches Some(u) ==> t.user@ == u@),
        r matches Ok(t) ==> (config.hostname matches Some(h) ==> t.host@ == h@),
        r matches Ok(t) ==> (cli.user is None && !dest@.contains('@') ==> t.user@ == "root"@),
{
    proof {
        if !dest@.contains('@') {
            crate::text::cut_needs_separator(dest@, '@');
        }
    }
    match parse_destination(dest) {
        Err(e) => Err(e),
        Ok((host, dest_user, dest_port)) => {
            if host.as_str().is_empty() {
                return Err(SpecError::NoDestination);
            }
            let option_port: Option<u16> = match get_option(opts, "port") {
                Some(v) => {
                    let digits = chars_of(v.as_str());
                    parse_u16(digits.as_slice())
                },
                None => None,
            };
            let port: u16 = match option_port {
                Some(p) => p,
                None => if cli.ssh_port != DEFAULT_PORT {
                    cli.ssh_port
                } else {
                    match config.port {
                        Some(p) => p,
                        None => dest_port,
                    }
                },
            };
            let user: String = match &cli.user {
                Some(u) => u.clone(),
                None => match dest_user {
                    Some(u) => u,
                    None => "root".to_owned(),
                },
            };
            let host: String = match &config.hostname {
                Some(h) => h.clone(),
                None => host,
            };
            Ok(Target { host, user, port })
        },
    }
}

/// Whether an address family may be used for the connection: `-4` and `-6`
/// each rule out the other; both together rule out nothing.
pub open spec fn family_allowed(ipv4: bool, ipv6: bool, is_ipv6: bool) -> bool {
    ipv4 == ipv6 || ipv6 == is_ipv6
}

/// Whether an address family may be used; see [`family_allowed`].
pub fn allows_family(cli: &Cli, is_ipv6: bool) -> (r: bool)
    ensures
        r == family_allowed(cli.ipv4, cli.ipv6, is_ipv6),
        r == (cli.ipv4 == cli.ipv6 || cli.ipv6 == is_ipv6),
{
    cli.ipv4 == cli.ipv6 || cli.ipv6 == is_ipv6
}

/// The local interface of the connection; an empty name counts as none.
pub fn bind_interface(cli: &Cli) -> (r: Option<String>)
    ensures
        opt_text(r) == non_empty(opt_text(cli.bind_interface)),
{
    match &cli.bind_interface {
        Some(name) => keep_non_empty(name),
        None => None,
    }
}

/// The jump host of a run, as an endpoint, and the user there: that of the
/// jump spec, else that of the target.
pub open spec fn jump_model(jump: ProxyJumpModel, target_user: Seq<char>) -> (
    Seq<char>,
    Seq<char>,
) {
    (
        endpoint(jump.host, jump.port),
        match jump.user {
            Some(u) => u,
            None => target_user,
        },
    )
}

/// The jump host of a run and the user there; see [`jump_model`].
pub fn jump_endpoint(jump: &ProxyJumpSpec, target_user: &str) -> (r: (String, String))
    ensures
        (r.0@, r.1@) == jump_model(jump@, target_user@),
        r.0@ == endpoint(jump.host@, jump.port),
        r.1@ == (match jump.user {
            Some(u) => u@,
            None => target_user@,
        }),
{
    let user: String = match &jump.user {
        Some(u) => u.clone(),
        None => target_user.to_owned(),
    };
    (endpoint_text(jump.host.as_str(), jump.port), user)
}

// ---------------------------------------------------------------------
// Forwards
// ---------------------------------------------------------------------

/// A spec that could not be read, and why.
#[derive(Debug)]
pub struct RefusedSpec {
    pub spec: String,
    pub error: SpecError,
}

impl View for RefusedSpec {
    type V = (Seq<char>, SpecError);

    open spec fn view(&self) -> (Seq<char>, SpecError) {
        (self.spec@, self.error)
    }
}

/// What a list of specs comes to, or the first that cannot be read.
pub open spec fn read_all<M>(
    specs: Seq<Seq<char>>,
    read: spec_fn(Seq<char>) -> Result<M, SpecError>,
) -> Result<Seq<M>, (Seq<char>, SpecError)>
    decreases specs.len(),
{
    if specs.len() == 0 {
        Ok(Seq::empty())
    } else {
        match read_all(specs.drop_last(), read) {
            Err(e) => Err(e),
            Ok(front) => match read(specs.last()) {
                Err(e) => Err((specs.last(), e)),
                Ok(f) => Ok(front.push(f)),
            },
        }
    }
}

proof fn read_error_stays<M>(
    all: Seq<Seq<char>>,
    read: spec_fn(Seq<char>) -> Result<M, SpecError>,
    i: int,
    e: (Seq<char>, SpecError),
)
    requires
        0 <= i <= all.len(),
        read_all(all.take(i), read) == Err::<Seq<M>, (Seq<char>, SpecError)>(e),
    ensures
        read_all(all, read) == Err::<Seq<M>, (Seq<char>, SpecError)>(e),
    decreases all.len(),
{
    if i == all.len() {
        assert(all.take(i) =~= all);
    } else {
        assert(all.drop_last().take(i) =~= all.take(i));
        read_error_stays(all.drop_last(), read, i, e);
    }
}

/// The contents of a list.
pub open spec fn views<T: View>(list: Seq<T>) -> Seq<T::V> {
    list.map_values(|f: T| f@)
}

/// Whether `r` is what reading a spec came to.
pub open spec fn is_read<T: View>(
    r: Result<T, SpecError>,
    model: Result<T::V, SpecError>,
) -> bool {
    match r {
        Ok(f) => model == Ok::<T::V, SpecError>(f@),
        Err(e) => model == Err::<T::V, SpecError>(e),
    }
}

/// Reads a list of specs; see [`read_all`].
fn parse_all<T: View, F: Fn(&str) -> Result<T, SpecError>>(
    specs: &[String],
    parse: F,
    read: Ghost<spec_fn(Seq<char>) -> Result<T::V, SpecError>>,
) -> (r: Result<Vec<T>, RefusedSpec>)
    requires
        forall|spec: &str| #[trigger] parse.requires((spec,)),
        forall|spec: &str, r: Result<T, SpecError>| #[trigger]
            parse.ensures((spec,), r) ==> is_read(r, read@(spec@)),
    ensures
        match r {
            Ok(l) => read_all(texts(specs@), read@) == Ok::<Seq<T::V>, (Seq<char>, SpecError)>(
                views(l@),
            ),
            Err(e) => read_all(texts(specs@), read@) == Err::<
                Seq<T::V>,
                (Seq<char>, SpecError),
            >(e@),
        },
{
    let ghost all = texts(specs@);
    let mut out: Vec<T> = Vec::new();
    let mut i: usize = 0;
    assert(views(out@) =~= Seq::<T::V>::empty());
    assert(all.take(0) =~= Seq::<Seq<char>>::empty());
    while i < specs.len()
        invariant
            i <= specs@.len(),
            all == texts(specs@),
            forall|spec: &str| #[trigger] parse.requires((spec,)),
            forall|spec: &str, r: Result<T, SpecError>| #[trigger]
                parse.ensures((spec,), r) ==> is_read(r, read@(spec@)),
            read_all(all.take(i as int), read@) == Ok::<Seq<T::V>, (Seq<char>, SpecError)>(
                views(out@),
            ),
        decreases specs@.len() - i,
    {
        let ghost before = out@;
        proof {
            assert(all.take(i + 1).drop_last() =~= all.take(i as int));
            assert(all.take(i + 1).last() == specs@[i as int]@);
        }
        match parse(specs[i].as_str()) {
            Err(e) => {
                proof {
                    read_error_stays(all, read@, i + 1, (specs@[i as int]@, e));
                }
                return Err(RefusedSpec { spec: specs[i].clone(), error: e });
            },
            Ok(f) => {
                let ghost model = f@;
                out.push(f);
                assert(views(out@) =~= views(before).push(model));
            },
        }
        i = i + 1;
    }
    assert(all.take(all.len() as int) =~= all);
    Ok(out)
}

/// How the spec of a forward is read.
pub open spec fn forward_reader(gateway_ports: bool) -> spec_fn(Seq<char>) -> Result<
    ForwardModel,
    SpecError,
> {
    |spec: Seq<char>| forward(spec, gateway_ports)
}

/// How the spec of a proxy listener is read.
pub open spec fn listener_reader(gateway_ports: bool) -> spec_fn(Seq<char>) -> Result<
    DynamicForwardModel,
    SpecError,
> {
    |spec: Seq<char>| dynamic_forward(spec, gateway_ports)
}

/// The forwards of a list of specs, or the first that cannot be read.
pub open spec fn forwards(specs: Seq<Seq<char>>, gateway_ports: bool) -> Result<
    Seq<ForwardModel>,
    (Seq<char>, SpecError),
> {
    read_all(specs, forward_reader(gateway_ports))
}

/// The listeners of a list of specs, or the first that cannot be read.
pub open spec fn listeners(specs: Seq<Seq<char>>, gateway_ports: bool) -> Result<
    Seq<DynamicForwardModel>,
    (Seq<char>, SpecError),
> {
    read_all(specs, listener_reader(gateway_ports))
}

/// Reads a list of forwards; see [`forwards`].
pub fn parse_forwards(specs: &[String], gateway_ports: bool) -> (r: Result<
    Vec<ForwardSpec>,
    RefusedSpec,
>)
    ensures
        match r {
            Ok(l) => forwards(texts(specs@), gateway_ports) == Ok::<
                Seq<ForwardModel>,
                (Seq<char>, SpecError),
            >(views(l@)),
            Err(e) => forwards(texts(specs@), gateway_ports) == Err::<
                Seq<ForwardModel>,
                (Seq<char>, SpecError),
            >(e@),
        },
{
    let parse = |spec: &str| -> (f: Result<ForwardSpec, SpecError>)
        ensures
            is_read(f, forward(spec@, gateway_ports)),
        {
            parse_forward_spec(spec, gateway_ports)
        };
    parse_all(specs, parse, Ghost(forward_reader(gateway_ports)))
}

/// Reads a list of proxy listeners; see [`listeners`].
pub fn parse_listeners(specs: &[String], gateway_ports: bool) -> (r: Result<
    Vec<DynamicForwardSpec>,
    RefusedSpec,
>)
    ensures
        match r {
            Ok(l) => listeners(texts(specs@), gateway_ports) == Ok::<
                Seq<DynamicForwardModel>,
                (Seq<char>, SpecError),
            >(views(l@)),
            Err(e) => listeners(texts(specs@), gateway_ports) == Err::<
                Seq<DynamicForwardModel>,
                (Seq<char>, SpecError),
            >(e@),
        },
{
    let parse = |spec: &str| -> (f: Result<DynamicForwardSpec, SpecError>)
        ensures
            is_read(f, dynamic_forward(spec@, gateway_ports)),
        {
            parse_dynamic_spec(spec, gateway_ports)
        };
    parse_all(specs, parse, Ghost(listener_reader(gateway_ports)))
}

/// All forwards of a run.
pub struct ForwardPlan {
    pub local: Vec<ForwardSpec>,
    pub remote: Vec<ForwardSpec>,
    pub dynamic: Vec<DynamicForwardSpec>,
    pub http: Vec<DynamicForwardSpec>,
}

/// All forwards of a run, over texts.
pub struct ForwardPlanModel {
    pub local: Seq<ForwardModel>,
    pub remote: Seq<ForwardModel>,
    pub dynamic: Seq<DynamicForwardModel>,
    pub http: Seq<DynamicForwardModel>,
}

impl View for ForwardPlan {
    type V = ForwardPlanModel;

    open spec fn view(&self) -> ForwardPlanModel {
        ForwardPlanModel {
            local: views(self.local@),
            remote: views(self.remote@),
            dynamic: views(self.dynamic@),
            http: views(self.http@),
        }
    }
}

/// All forwards of a command line: local, remote, SOCKS and HTTP; or the first
/// that cannot be read. Gateway ports do not concern remote forwards, whose
/// listener is the server's.
pub open spec fn forward_plan(cli: Cli, gateway_ports: bool) -> Result<
    ForwardPlanModel,
    (Seq<char>, SpecError),
> {
    match (
        forwards(texts(cli.local_forward@), gateway_ports),
        forwards(texts(cli.remote_forward@), false),
        listeners(texts(cli.dynamic_forward@), gateway_ports),
        listeners(texts(cli.http_proxy_connect@), gateway_ports),
    ) {
        (Err(e), _, _, _) => Err(e),
        (_, Err(e), _, _) => Err(e),
        (_, _, Err(e), _) => Err(e),
        (_, _, _, Err(e)) => Err(e),
        (Ok(local), Ok(remote), Ok(dynamic), Ok(http)) => Ok(
            ForwardPlanModel { local, remote, dynamic, http },
        ),
    }
}

/// Reads all forwards of a command line; see [`forward_plan`].
pub fn plan_forwards(cli: &Cli, gateway_ports: bool) -> (r: Result<ForwardPlan, RefusedSpec>)
    ensures
        match r {
            Ok(p) => forward_plan(*cli, gateway_ports) == Ok::<
                ForwardPlanModel,
                (Seq<char>, SpecError),
            >(p@),
            Err(e) => forward_plan(*cli, gateway_ports) == Err::<
                ForwardPlanModel,
                (Seq<char>, SpecError),
            >(e@),
        },
        match (
            forwards(texts(cli.local_forward@), gateway_ports),
            forwards(texts(cli.remote_forward@), false),
            listeners(texts(cli.dynamic_forward@), gateway_ports),
            listeners(texts(cli.http_proxy_connect@), gateway_ports),
        ) {
            (Err(e), _, _, _) => r matches Err(x) && x@ == e,
            (_, Err(e), _, _) => r matches Err(x) && x@ == e,
            (_, _, Err(e), _) => r matches Err(x) && x@ == e,
            (_, _, _, Err(e)) => r matches Err(x) && x@ == e,
            (Ok(local), Ok(remote), Ok(dynamic), Ok(http)) => r matches Ok(p) && views(
                p.local@,
            ) == local && views(p.remote@) == remote && views(p.dynamic@)
                == dynamic && views(p.http@) == http,
        },
{
    let local = match parse_forwards(cli.local_forward.as_slice(), gateway_ports) {
        Ok(l) => l,
        Err(e) => return Err(e),
    };
    let remote = match parse_forwards(cli.remote_forward.as_slice(), false) {
        Ok(l) => l,
        Err(e) => return Err(e),
    };
    let dynamic = match parse_listeners(cli.dynamic_forward.as_slice(), gateway_ports) {
        Ok(l) => l,
        Err(e) => return Err(e),
    };
    let http = match parse_listeners(cli.http_proxy_connect.as_slice(), gateway_ports) {
        Ok(l) => l,
        Err(e) => return Err(e),
    };
    Ok(ForwardPlan { local, remote, dynamic, http })
}

/// What follows when a forward cannot be set up.
#[derive(Clone, Copy, PartialEq, Eq, Structural, Debug)]
pub enum ForwardFailure {
    /// The run ends with the error.
    Abort,
    /// The run goes on without the forward.
    Ignore,
}

/// What follows when a forward cannot be set up.
pub open spec fn failure_model(exit_on_forward_failure: bool) -> ForwardFailure {
    if exit_on_forward_failure {
        ForwardFailure::Abort
    } else {
        ForwardFailure::Ignore
    }
}

/// Decides what follows when a forward cannot be set up.
pub fn forward_failed(exit_on_forward_failure: bool) -> (r: ForwardFailure)
    ensures
        r == failure_model(exit_on_forward_failure),
        r == (if exit_on_forward_failure {
            ForwardFailure::Abort
        } else {
            ForwardFailure::Ignore
        }),
{
    if exit_on_forward_failure {
        ForwardFailure::Abort
    } else {
        ForwardFailure::Ignore
    }
}

// ---------------------------------------------------------------------
// The agent
// ---------------------------------------------------------------------

/// The agent socket that is forwarded: the one of the environment, where
/// forwarding is asked for and not forbidden and the environment names one.
pub open spec fn agent_socket_model(
    forward: bool,
    no_forward: bool,
    env: Option<Seq<char>>,
) -> Option<Seq<char>> {
    if forward && !no_forward {
        non_empty(env)
    } else {
        None
    }
}

/// The agent socket that is forwarded; see [`agent_socket_model`].
pub fn agent_socket(cli: &Cli, env: &Option<String>) -> (r: Option<String>)
    ensures
        opt_text(r) == agent_socket_model(
            cli.forward_agent,
            cli.no_forward_agent,
            opt_text(*env),
        ),
        r is Some ==> cli.forward_agent && !cli.no_forward_agent && opt_text(r) == opt_text(*env),
{
    if cli.forward_agent && !cli.no_forward_agent {
        match env {
            Some(p) => keep_non_empty(p),
            None => None,
        }
    } else {
        None
    }
}

// ---------------------------------------------------------------------
// Transfers
// ---------------------------------------------------------------------

/// Why a transfer was refused.
#[derive(Clone, Copy, PartialEq, Eq, Structural, Debug)]
pub enum TransferError {
    /// The spec cannot be read.
    Spec(SpecError),
    /// A path of a synchronization is not absolute.
    Relative,
}

/// The two paths of a transfer, over texts.
pub open spec fn transfer_model(r: Result<(String, String), TransferError>) -> Result<
    (Seq<char>, Seq<char>),
    TransferError,
> {
    match r {
        Ok(t) => Ok((t.0@, t.1@)),
        Err(e) => Err(e),
    }
}

/// Whether `r` is an upload as its spec says: from the local path, expanded, to
/// the remote one.
pub open spec fn uploads(
    spec: Seq<char>,
    r: Result<(Seq<char>, Seq<char>), TransferError>,
) -> bool {
    match file_spec(spec) {
        Err(e) => r == Err::<(Seq<char>, Seq<char>), TransferError>(TransferError::Spec(e)),
        Ok((local, remote)) => r matches Ok(t) && is_expansion(local, t.0) && t.1 == remote,
    }
}

/// Whether `r` is a download as its spec says: from the remote path to the local
/// one, expanded.
pub open spec fn downloads(
    spec: Seq<char>,
    r: Result<(Seq<char>, Seq<char>), TransferError>,
) -> bool {
    match file_spec(spec) {
        Err(e) => r == Err::<(Seq<char>, Seq<char>), TransferError>(TransferError::Spec(e)),
        Ok((remote, local)) => r matches Ok(t) && t.0 == remote && is_expansion(local, t.1),
    }
}

/// Whether `r` is a synchronization as its spec says: between the local and the
/// remote path, both expanded and absolute.
pub open spec fn synchronizes(
    spec: Seq<char>,
    r: Result<(Seq<char>, Seq<char>), TransferError>,
) -> bool {
    match file_spec(spec) {
        Err(e) => r == Err::<(Seq<char>, Seq<char>), TransferError>(TransferError::Spec(e)),
        Ok((local, remote)) => match r {
            Ok(t) => is_expansion(local, t.0) && is_expansion(remote, t.1) && absolute(t.0)
                && absolute(t.1),
            Err(e) => e == TransferError::Relative && may_be_relative(local, remote),
        },
    }
}

/// Reads an upload: local and remote path, the local one expanded.
pub fn push_transfer(spec: &str) -> (r: Result<(String, String), TransferError>)
    ensures
        uploads(spec@, transfer_model(r)),
        match file_spec(spec@) {
            Err(e) => r == Err::<(String, String), TransferError>(TransferError::Spec(e)),
            Ok((local, remote)) => r matches Ok(t) && t.1@ == remote && is_expansion(local, t.0@),
        },
{
    match parse_file_spec(spec) {
        Err(e) => Err(TransferError::Spec(e)),
        Ok((local, remote)) => Ok((expand_path(local.as_str()), remote)),
    }
}

/// Reads a download: remote and local path, the local one expanded.
pub fn pull_transfer(spec: &str) -> (r: Result<(String, String), TransferError>)
    ensures
        downloads(spec@, transfer_model(r)),
        match file_spec(spec@) {
            Err(e) => r == Err::<(String, String), TransferError>(TransferError::Spec(e)),
            Ok((remote, local)) => r matches Ok(t) && t.0@ == remote && is_expansion(local, t.1@),
        },
{
    match parse_file_spec(spec) {
        Err(e) => Err(TransferError::Spec(e)),
        Ok((remote, local)) => Ok((remote, expand_path(local.as_str()))),
    }
}

/// Checks the two paths of a synchronization: both have to be absolute.
pub fn check_rsync_paths(local: String, remote: String) -> (r: Result<
    (String, String),
    TransferError,
>)
    ensures
        r == (if absolute(local@) && absolute(remote@) {
            Ok::<(String, String), TransferError>((local, remote))
        } else {
            Err(TransferError::Relative)
        }),
{
    if is_absolute_path(remote.as_str()) && is_absolute_path(local.as_str()) {
        Ok((local, remote))
    } else {
        Err(TransferError::Relative)
    }
}

/// Whether one of two paths can be relative once expanded.
pub open spec fn may_be_relative(local: Seq<char>, remote: Seq<char>) -> bool {
    exists|l: Seq<char>, t: Seq<char>|
        #[trigger] is_expansion(local, l) && #[trigger] is_expansion(remote, t) && !(absolute(l)
            && absolute(t))
}

/// Reads a synchronization: local and remote path, both expanded and then
/// absolute.
pub fn rsync_transfer(spec: &str) -> (r: Result<(String, String), TransferError>)
    ensures
        synchronizes(spec@, transfer_model(r)),
        match file_spec(spec@) {
            Err(e) => r == Err::<(String, String), TransferError>(TransferError::Spec(e)),
            Ok((local, remote)) => match r {
                Ok(p) => {
                    &&& is_expansion(local, p.0@)
                    &&& is_expansion(remote, p.1@)
                    &&& absolute(p.0@)
                    &&& absolute(p.1@)
                },
                Err(e) => e == TransferError::Relative && may_be_relative(local, remote),
            },
        },
{
    match parse_file_spec(spec) {
        Err(e) => Err(TransferError::Spec(e)),
        Ok((local, remote)) => {
            let l = expand_path(local.as_str());
            let t = expand_path(remote.as_str());
            let ghost (gl, gt) = (l@, t@);
            let r = check_rsync_paths(l, t);
            proof {
                assert(is_expansion(local@, gl) && is_expansion(remote@, gt));
                if r is Err {
                    assert(!(absolute(gl) && absolute(gt)));
                    assert(may_be_relative(local@, remote@));
                }
            }
            r
        },
    }
}

/// Whether files are transferred.
pub open spec fn transfers(cli: Cli) -> bool {
    cli.push@.len() > 0 || cli.pull@.len() > 0 || cli.rsync@.len() > 0
}

/// Whether files are transferred.
pub fn has_transfers(cli: &Cli) -> (r: bool)
    ensures
        r == transfers(*cli),
        r == (cli.push@.len() > 0 || cli.pull@.len() > 0 || cli.rsync@.len() > 0),
{
    cli.push.len() > 0 || cli.pull.len() > 0 || cli.rsync.len() > 0
}

// ---------------------------------------------------------------------
// The session
// ---------------------------------------------------------------------

/// What happens once the connection stands and files are transferred.
#[derive(Clone, Copy, PartialEq, Eq, Structural, Debug)]
pub enum SessionMode {
    /// Nothing more: the transfers were all there was to do.
    Finish,
    /// The forwards are served; there is no session.
    Forwards,
    /// The command runs.
    Command,
    /// An interactive shell runs.
    Shell,
    /// A session without command or shell stays open.
    Wait,
}

/// What happens on the connection. Transfers without a command end the run,
/// unless it is to stay. Without a command, forwards other than local ones
/// are served without a session.
pub open spec fn session_mode_model(
    transfers: bool,
    command: bool,
    no_command: bool,
    forwards: bool,
) -> SessionMode {
    if transfers && !command && !no_command {
        SessionMode::Finish
    } else if no_command && forwards {
        SessionMode::Forwards
    } else if command {
        SessionMode::Command
    } else if !no_command {
        SessionMode::Shell
    } else {
        SessionMode::Wait
    }
}

/// Decides what happens on the connection; see [`session_mode_model`].
pub fn session_mode(cli: &Cli) -> (r: SessionMode)
    ensures
        r == session_mode_model(
            transfers(*cli),
            cli.command@.len() > 0,
            cli.no_command,
            cli.remote_forward@.len() > 0 || cli.dynamic_forward@.len() > 0
                || cli.http_proxy_connect@.len() > 0,
        ),
        r == SessionMode::Finish <==> cli.command@.len() == 0 && !cli.no_command && (
        cli.push@.len() > 0 || cli.pull@.len() > 0 || cli.rsync@.len() > 0),
        r == SessionMode::Shell <==> cli.command@.len() == 0 && !cli.no_command && cli.push@.len()
            == 0 && cli.pull@.len() == 0 && cli.rsync@.len() == 0,
{
    let command: bool = cli.command.len() > 0;
    if has_transfers(cli) && !command && !cli.no_command {
        SessionMode::Finish
    } else if cli.no_command && (cli.remote_forward.len() > 0 || cli.dynamic_forward.len() > 0
        || cli.http_proxy_connect.len() > 0) {
        SessionMode::Forwards
    } else if command {
        SessionMode::Command
    } else if !cli.no_command {
        SessionMode::Shell
    } else {
        SessionMode::Wait
    }
}

/// Whether a terminal is asked for: unless `-N` is given, or where `-t` is;
/// never with `-T`.
pub open spec fn pty_wanted(disable: bool, force: bool, no_command: bool) -> bool {
    !disable && (force || !no_command)
}

/// Whether a terminal is asked for; see [`pty_wanted`].
pub fn wants_pty(cli: &Cli) -> (r: bool)
    ensures
        r == pty_wanted(cli.disable_pty, cli.force_tty, cli.no_command),
        r == (!cli.disable_pty && (cli.force_tty || !cli.no_command)),
{
    !cli.disable_pty && (cli.force_tty || !cli.no_command)
}

/// The terminal type: that of the environment, else a common one.
pub open spec fn terminal_name(env: Option<Seq<char>>) -> Seq<char> {
    match env {
        Some(t) => t,
        None => "xterm-256color"@,
    }
}

/// The terminal type; see [`terminal_name`].
pub fn terminal_type(env: &Option<String>) -> (r: String)
    ensures
        r@ == terminal_name(opt_text(*env)),
        r@ == (match *env {
            Some(t) => t@,
            None => "xterm-256color"@,
        }),
{
    match env {
        Some(t) => t.clone(),
        None => "xterm-256color".to_owned(),
    }
}

// ---------------------------------------------------------------------
// Laws
// ---------------------------------------------------------------------

/// With `-N` no shell is started, and no command unless one is given; where
/// there are forwards to serve, not even that. Without `-N` a command that is
/// given runs.
pub proof fn no_command_starts_no_shell(transfers: bool, command: bool, forwards: bool)
    ensures
        session_mode_model(transfers, command, true, forwards) != SessionMode::Shell,
        session_mode_model(transfers, false, true, forwards) != SessionMode::Command,
        session_mode_model(transfers, command, true, true) == SessionMode::Forwards,
        session_mode_model(transfers, true, false, forwards) == SessionMode::Command,
{
}

/// What is given with `-o` wins over flags and configuration, whatever they
/// say.
pub proof fn options_win(
    m: Map<Seq<char>, Seq<char>>,
    a: Cli,
    b: Cli,
    x: crate::config::ResolvedModel,
    y: crate::config::ResolvedModel,
)
    requires
        m.dom().contains("stricthostkeychecking"@),
        m.dom().contains("userknownhostsfile"@),
        m.dom().contains("gatewayports"@),
        m.dom().contains("bindaddress"@),
        a.inactivity_timeout == b.inactivity_timeout,
    ensures
        run_options_model(m, a, x) == run_options_model(m, b, y),
{
}

/// A run without a destination has no target, whatever forwards it asks for and
/// whatever else the command line and the configuration say.
pub proof fn forwards_need_a_destination(
    cli: Cli,
    user: Option<Seq<char>>,
    port: u16,
    option_port: Option<Seq<char>>,
    config_host: Option<Seq<char>>,
    config_port: Option<u16>,
)
    requires
        cli.destination is None,
    ensures
        found_target(given_destination(cli), user, port, option_port, config_host, config_port)
            == Err::<TargetModel, SpecError>(SpecError::NoDestination),
{
    let none = Seq::<char>::empty();
    crate::text::cut_needs_separator(none, '@');
    crate::text::cut_needs_separator(none, ':');
}

/// The port of `-o` wins over every other; `-p` wins over configuration and
/// destination; the configuration wins over the destination.
pub proof fn ports_in_order(
    host: Seq<char>,
    user: Option<Seq<char>>,
    dest: u16,
    cli_user: Option<Seq<char>>,
    cli: u16,
    option: Option<Seq<char>>,
    config_host: Option<Seq<char>>,
    config: Option<u16>,
)
    ensures
        ({
            let port = target_model(
                host,
                user,
                dest,
                cli_user,
                cli,
                option,
                config_host,
                config,
            ).port;
            &&& option is Some && number_u16(option->0) is Some ==> Some(port) == number_u16(
                option->0,
            )
            &&& option is None && cli != DEFAULT_PORT ==> port == cli
            &&& option is None && cli == DEFAULT_PORT && config is Some ==> Some(port) == config
            &&& option is None && cli == DEFAULT_PORT && config is None ==> port == dest
        }),
{
}

/// The user is the one that the command line names, or the configuration filled
/// in, whatever the destination holds; else the one before the last `@` of the
/// destination; and `root` only where neither names one.
pub proof fn users_in_order(
    dest: Seq<char>,
    user: Seq<char>,
    rest: Seq<char>,
    named: Seq<char>,
    port: u16,
    option_port: Option<Seq<char>>,
    config_host: Option<Seq<char>>,
    config_port: Option<u16>,
)
    requires
        !rest.contains('@'),
    ensures
        found_target(
            dest,
            Some(named),
            port,
            option_port,
            config_host,
            config_port,
        ) matches Ok(t) ==> t.user == named,
        found_target(
            user + seq!['@'] + rest,
            None,
            port,
            option_port,
            config_host,
            config_port,
        ) matches Ok(t) ==> t.user == user,
        found_target(
            rest,
            None,
            port,
            option_port,
            config_host,
            config_port,
        ) matches Ok(t) ==> t.user == "root"@,
{
    crate::text::cut_last_rejoins(user, '@', rest);
    crate::text::cut_needs_separator(rest, '@');
}

/// Whom one connects as decides neither on the host nor on the port, nor on
/// whether there is a target.
pub proof fn users_decide_on_nothing_else(
    dest: Seq<char>,
    a: Option<Seq<char>>,
    b: Option<Seq<char>>,
    port: u16,
    option_port: Option<Seq<char>>,
    config_host: Option<Seq<char>>,
    config_port: Option<u16>,
)
    ensures
        match (
            found_target(dest, a, port, option_port, config_host, config_port),
            found_target(dest, b, port, option_port, config_host, config_port),
        ) {
            (Ok(x), Ok(y)) => x.host == y.host && x.port == y.port,
            (Err(x), Err(y)) => x == y,
            _ => false,
        },
{
}

/// `user@host:port`, with nothing else given, is where the connection goes; a
/// host alone is reached as `root` on port 22.
pub proof fn destinations_are_reached(user: Seq<char>, host: Seq<char>, port: u16)
    requires
        host.len() > 0,
        host[0] != '[',
        !host.contains('@'),
    ensures
        found_target(
            user + seq!['@'] + (host + seq![':'] + crate::number::decimal(port as nat)),
            None,
            22,
            None,
            None,
            None,
        ) == Ok::<TargetModel, SpecError>(TargetModel { host, user, port }),
        !host.contains(':') ==> found_target(host, None, 22, None, None, None) == Ok::<
            TargetModel,
            SpecError,
        >(TargetModel { host, user: "root"@, port: 22 }),
{
    crate::cli::destination_reads_back(user, host, port);
    crate::cli::destinations_default_to_port_22(user, host);
}

/// The host that the configuration names stands for the one of the destination;
/// without one the latter is reached, whatever the ports and the user.
pub proof fn hosts_in_order(
    dest: Seq<char>,
    cli_user: Option<Seq<char>>,
    port: u16,
    option_port: Option<Seq<char>>,
    config_host: Seq<char>,
    config_port: Option<u16>,
)
    ensures
        found_target(
            dest,
            cli_user,
            port,
            option_port,
            Some(config_host),
            config_port,
        ) matches Ok(t) ==> t.host == config_host,
        match (
            found_target(dest, cli_user, port, option_port, None, config_port),
            found_target(dest, None, 22, None, None, None),
        ) {
            (Ok(a), Ok(b)) => a.host == b.host,
            (Err(a), Err(b)) => a == b,
            _ => false,
        },
{
}

/// A port given with `-o` is the one, whatever else is given; else a port given
/// with `-p` that is not 22; else that of the configuration; else that of the
/// destination. A port of `-o` that is no number counts as not given.
pub proof fn target_ports_in_order(
    dest: Seq<char>,
    cli_user: Option<Seq<char>>,
    option: u16,
    bad: Seq<char>,
    cli: u16,
    config_host: Option<Seq<char>>,
    config_port: Option<u16>,
    config: u16,
)
    requires
        number_u16(bad) is None,
        cli != 22,
    ensures
        found_target(
            dest,
            cli_user,
            cli,
            Some(crate::number::decimal(option as nat)),
            config_host,
            config_port,
        ) matches Ok(t) ==> t.port == option,
        found_target(
            dest,
            cli_user,
            22,
            Some(crate::number::decimal(option as nat)),
            config_host,
            config_port,
        ) matches Ok(t) ==> t.port == option,
        found_target(dest, cli_user, cli, None, config_host, config_port) matches Ok(t) ==> t.port
            == cli,
        found_target(dest, cli_user, 22, None, config_host, Some(config)) matches Ok(t) ==> t.port
            == config,
        match (
            found_target(dest, cli_user, 22, None, config_host, None),
            destination(dest),
        ) {
            (Ok(t), Ok((_, _, port))) => t.port == port,
            (Err(_), _) => true,
            _ => false,
        },
        found_target(dest, cli_user, cli, Some(bad), config_host, config_port) == found_target(
            dest,
            cli_user,
            cli,
            None,
            config_host,
            config_port,
        ),
{
    crate::number::decimal_reads_back(option as nat, 0xffff);
}

/// A run with uploads, downloads or directories to synchronize transfers files,
/// and no other does. Without a command and without `-N` such a run ends with
/// that; a run without any of them does not.
pub proof fn transfers_end_the_run(cli: Cli, forwards: bool)
    ensures
        cli.push@.len() > 0 ==> transfers(cli),
        cli.pull@.len() > 0 ==> transfers(cli),
        cli.rsync@.len() > 0 ==> transfers(cli),
        cli.push@.len() == 0 && cli.pull@.len() == 0 && cli.rsync@.len() == 0 ==> !transfers(cli),
        session_mode_model(true, false, false, forwards) == SessionMode::Finish,
        session_mode_model(false, false, false, forwards) == SessionMode::Shell,
        forall|transfers: bool, command: bool, no_command: bool|
            (#[trigger] session_mode_model(transfers, command, no_command, forwards))
                == SessionMode::Finish ==> transfers && !command && !no_command,
{
}

/// A command that is given runs unless `-N` leaves only forwards to serve; a
/// shell is opened just if there is neither a command nor `-N` nor a transfer;
/// with `-N` and nothing to serve the session only stays open.
pub proof fn sessions_follow_the_command_line(transfers: bool, forwards: bool)
    ensures
        session_mode_model(transfers, true, false, forwards) == SessionMode::Command,
        session_mode_model(transfers, true, true, false) == SessionMode::Command,
        session_mode_model(transfers, true, true, true) == SessionMode::Forwards,
        session_mode_model(transfers, false, true, true) == SessionMode::Forwards,
        session_mode_model(transfers, false, true, false) == SessionMode::Wait,
        session_mode_model(transfers, false, false, forwards) == SessionMode::Shell <==> !transfers,
{
}

/// A keepalive interval that is given with `-o` is the one, whatever else is
/// given. Only without one does `TCPKeepAlive=yes` ask for an interval, of 60
/// seconds; and what is not asked for is not there. A value that is no number
/// counts as not given.
pub proof fn keepalives_are_as_asked(
    m: Map<Seq<char>, Seq<char>>,
    n: u64,
    bad: Seq<char>,
    cli: Cli,
    config: crate::config::ResolvedModel,
)
    requires
        number(bad, u64::MAX as nat) is None,
        number(bad, usize::MAX as nat) is None,
    ensures
        run_options_model(
            m.insert("serveraliveinterval"@, crate::number::decimal(n as nat)),
            cli,
            config,
        ).keepalive_interval == Some(n),
        run_options_model(m.insert("serveraliveinterval"@, bad), cli, config)
            .keepalive_interval == run_options_model(m.remove("serveraliveinterval"@), cli, config)
            .keepalive_interval,
        !m.dom().contains("serveraliveinterval"@) ==> run_options_model(
            m.insert("tcpkeepalive"@, "yes"@),
            cli,
            config,
        ).keepalive_interval == Some(60u64),
        !m.dom().contains("serveraliveinterval"@) && !(m.dom().contains("tcpkeepalive"@)
            && m["tcpkeepalive"@] == "yes"@) ==> run_options_model(m, cli, config)
            .keepalive_interval is None,
        n <= usize::MAX ==> run_options_model(
            m.insert("serveralivecountmax"@, crate::number::decimal(n as nat)),
            cli,
            config,
        ).keepalive_max == Some(n as usize),
        run_options_model(m.insert("serveralivecountmax"@, bad), cli, config).keepalive_max is None,
        run_options_model(m.remove("serveralivecountmax"@), cli, config).keepalive_max is None,
{
    reveal_strlit("serveraliveinterval");
    reveal_strlit("tcpkeepalive");
    assert("serveraliveinterval"@.len() != "tcpkeepalive"@.len());
    crate::number::decimal_reads_back(n as nat, u64::MAX as nat);
    if n <= usize::MAX {
        crate::number::decimal_reads_back(n as nat, usize::MAX as nat);
    }
}

/// Host keys are checked strictly where `-o` says `yes` or `accept-new`, and
/// not where it says anything else, whatever the configuration says; where it
/// says nothing, just if the configuration says so. The known-hosts file is
/// that of `-o`, else that of the configuration.
pub proof fn host_key_options_in_order(
    m: Map<Seq<char>, Seq<char>>,
    value: Seq<char>,
    cli: Cli,
    config: crate::config::ResolvedModel,
)
    ensures
        run_options_model(m.insert("stricthostkeychecking"@, value), cli, config).strict <==> value
            == "yes"@ || value == "accept-new"@,
        run_options_model(m.remove("stricthostkeychecking"@), cli, config).strict
            <==> config.strict_host_key_checking == Some(true),
        run_options_model(m.insert("userknownhostsfile"@, value), cli, config).known_hosts == Some(
            value,
        ),
        run_options_model(m.remove("userknownhostsfile"@), cli, config).known_hosts
            == config.user_known_hosts_file,
{
}

/// A forward that fails ends the run just if `-o` says `yes` to that. Forwards
/// listen on every interface where `-o` says `yes` to that, and not where it
/// says anything else; where it says nothing, just if `-g` is given.
pub proof fn forward_options_in_order(
    m: Map<Seq<char>, Seq<char>>,
    value: Seq<char>,
    cli: Cli,
    config: crate::config::ResolvedModel,
)
    ensures
        run_options_model(m.insert("exitonforwardfailure"@, value), cli, config)
            .exit_on_forward_failure <==> value == "yes"@,
        !run_options_model(m.remove("exitonforwardfailure"@), cli, config).exit_on_forward_failure,
        run_options_model(m.insert("gatewayports"@, value), cli, config).gateway_ports <==> value
            == "yes"@,
        run_options_model(m.remove("gatewayports"@), cli, config).gateway_ports
            <==> cli.gateway_ports,
{
}

/// The local address is that of `-o`, else that of the command line; an empty
/// one is none. A timeout of 0 is none.
pub proof fn addresses_and_timeouts_in_order(
    m: Map<Seq<char>, Seq<char>>,
    value: Seq<char>,
    cli: Cli,
    config: crate::config::ResolvedModel,
)
    ensures
        value.len() > 0 ==> run_options_model(m.insert("bindaddress"@, value), cli, config)
            .bind_address == Some(value),
        value.len() == 0 ==> run_options_model(m.insert("bindaddress"@, value), cli, config)
            .bind_address is None,
        cli.bind_address is None ==> run_options_model(m.remove("bindaddress"@), cli, config)
            .bind_address is None,
        cli.bind_address matches Some(a) ==> run_options_model(
            m.remove("bindaddress"@),
            cli,
            config,
        ).bind_address == if a@.len() > 0 {
            Some(a@)
        } else {
            None
        },
        cli.inactivity_timeout == 0 ==> run_options_model(m, cli, config).inactivity_timeout
            is None,
        cli.inactivity_timeout > 0 ==> run_options_model(m, cli, config).inactivity_timeout == Some(
            cli.inactivity_timeout,
        ),
{
}

/// What is read of a list of specs is what each of them says, in order; where
/// one cannot be read, the first such is given back with what is wrong with it.
proof fn specs_are_read_in_order<M>(
    specs: Seq<Seq<char>>,
    read: spec_fn(Seq<char>) -> Result<M, SpecError>,
)
    ensures
        match read_all(specs, read) {
            Ok(list) => list.len() == specs.len() && forall|i: int|
                0 <= i < specs.len() ==> read(#[trigger] specs[i]) == Ok::<M, SpecError>(list[i]),
            Err((spec, e)) => exists|i: int|
                0 <= i < specs.len() && #[trigger] specs[i] == spec && read(specs[i]) == Err::<
                    M,
                    SpecError,
                >(e) && forall|j: int| 0 <= j < i ==> read(#[trigger] specs[j]) is Ok,
        },
    decreases specs.len(),
{
    if specs.len() > 0 {
        let front = specs.drop_last();
        specs_are_read_in_order(front, read);
        match read_all(front, read) {
            Err((spec, e)) => {
                let i = choose|i: int|
                    0 <= i < front.len() && #[trigger] front[i] == spec && read(front[i]) == Err::<
                        M,
                        SpecError,
                    >(e) && forall|j: int| 0 <= j < i ==> read(#[trigger] front[j]) is Ok;
                assert(specs[i] == spec);
                assert forall|j: int| 0 <= j < i implies read(#[trigger] specs[j]) is Ok by {
                    assert(front[j] == specs[j]);
                }
            },
            Ok(list) => {
                assert forall|j: int| 0 <= j < front.len() implies read(#[trigger] specs[j])
                    == Ok::<M, SpecError>(list[j]) by {
                    assert(front[j] == specs[j]);
                }
                let n = specs.len() - 1;
                assert(specs[n] == specs.last());
            },
        }
    }
}

/// The forwards of a run are what each spec says, in order; where one cannot be
/// read, the first such is the error.
pub proof fn forwards_are_read_in_order(specs: Seq<Seq<char>>, gateway_ports: bool)
    ensures
        match forwards(specs, gateway_ports) {
            Ok(list) => list.len() == specs.len() && forall|i: int|
                0 <= i < specs.len() ==> forward(#[trigger] specs[i], gateway_ports) == Ok::<
                    ForwardModel,
                    SpecError,
                >(list[i]),
            Err((spec, e)) => exists|i: int|
                0 <= i < specs.len() && #[trigger] specs[i] == spec && forward(
                    specs[i],
                    gateway_ports,
                ) == Err::<ForwardModel, SpecError>(e) && forall|j: int|
                    0 <= j < i ==> forward(#[trigger] specs[j], gateway_ports) is Ok,
        },
{
    specs_are_read_in_order(specs, forward_reader(gateway_ports));
}

/// The proxy listeners of a run are what each spec says, in order; where one
/// cannot be read, the first such is the error.
pub proof fn listeners_are_read_in_order(specs: Seq<Seq<char>>, gateway_ports: bool)
    ensures
        match listeners(specs, gateway_ports) {
            Ok(list) => list.len() == specs.len() && forall|i: int|
                0 <= i < specs.len() ==> dynamic_forward(#[trigger] specs[i], gateway_ports)
                    == Ok::<DynamicForwardModel, SpecError>(list[i]),
            Err((spec, e)) => exists|i: int|
                0 <= i < specs.len() && #[trigger] specs[i] == spec && dynamic_forward(
                    specs[i],
                    gateway_ports,
                ) == Err::<DynamicForwardModel, SpecError>(e) && forall|j: int|
                    0 <= j < i ==> dynamic_forward(#[trigger] specs[j], gateway_ports) is Ok,
        },
{
    specs_are_read_in_order(specs, listener_reader(gateway_ports));
}

/// The agent is forwarded just if that is asked for, not forbidden, and the
/// environment names a socket; it is then that socket.
pub proof fn agents_are_forwarded_as_asked(forward: bool, no_forward: bool, socket: Seq<char>)
    ensures
        agent_socket_model(forward, no_forward, None) is None,
        agent_socket_model(forward, true, Some(socket)) is None,
        agent_socket_model(false, no_forward, Some(socket)) is None,
        socket.len() > 0 ==> agent_socket_model(true, false, Some(socket)) == Some(socket),
        agent_socket_model(true, false, Some(Seq::empty())) is None,
{
}

/// A secret comes from the file that is named for it, whatever value is given;
/// else from the value; without either there is none.
pub proof fn secret_files_win(file: Seq<char>, value: Option<Seq<char>>, text: Seq<char>)
    ensures
        secret_model(Some(file), value) == SecretPlanModel::File(file),
        secret_model(None, Some(text)) == SecretPlanModel::Value(text),
        secret_model(None, None) == SecretPlanModel::Absent,
{
}

/// How much is logged: debugging output where that is asked for, even with
/// `-q`, which else leaves errors only; without both, one more level with each
/// `-v`.
pub proof fn levels_in_order(debug_all: bool, quiet: bool, verbose: u8)
    ensures
        level_name(true, quiet, verbose) == "debug"@,
        level_name(false, true, verbose) == "error"@,
        level_name(false, false, 0) == "warn"@,
        level_name(false, false, 1) == "info"@,
        level_name(false, false, 2) == "debug"@,
        verbose > 2 ==> level_name(false, false, verbose) == "trace"@,
{
}

/// The copy in the background gets every argument but those that ask for the
/// background, in order.
pub proof fn forked_arguments_are_kept(args: Seq<Seq<char>>, arg: Seq<char>)
    ensures
        without_fork(Seq::empty()) == Seq::<Seq<char>>::empty(),
        without_fork(args.push("-f"@)) == without_fork(args),
        without_fork(args.push("--fork"@)) == without_fork(args),
        arg != "-f"@ && arg != "--fork"@ ==> without_fork(args.push(arg)) == without_fork(args).push(
            arg,
        ),
{
    reveal(Seq::filter);
    assert(args.push("-f"@).drop_last() =~= args);
    assert(args.push("--fork"@).drop_last() =~= args);
    assert(args.push(arg).drop_last() =~= args);
}

/// Help is printed whenever it is asked for; else algorithms are listed where
/// that is asked for; else a command for a master is sent; else the run goes to
/// the background; and else it connects where it has a destination or a forward.
pub proof fn errands_in_order(cli: Cli)
    ensures
        cli.help ==> errand_model(cli) == Errand::Help,
        !cli.help && cli.query@.len() > 0 ==> errand_model(cli) == Errand::Query,
        !cli.help && cli.query@.len() == 0 && cli.control_command is Some ==> errand_model(cli)
            == Errand::Control,
        !cli.help && cli.query@.len() == 0 && cli.control_command is None && cli.fork
            ==> errand_model(cli) == Errand::Fork,
        !cli.help && cli.query@.len() == 0 && cli.control_command is None && !cli.fork ==> (
        errand_model(cli) == Errand::Connect <==> (cli.destination matches Some(d) && d@.len() > 0)
            || cli.local_forward@.len() > 0 || cli.remote_forward@.len() > 0
            || cli.dynamic_forward@.len() > 0),
        errand_model(cli) == Errand::Connect ==> !cli.help && !cli.fork,
{
}

/// `-4` alone allows IPv4 only, `-6` alone IPv6 only; neither and both allow
/// either.
pub proof fn families_are_allowed_as_asked(is_ipv6: bool)
    ensures
        family_allowed(true, false, false) && !family_allowed(true, false, true),
        family_allowed(false, true, true) && !family_allowed(false, true, false),
        family_allowed(false, false, is_ipv6) && family_allowed(true, true, is_ipv6),
{
}

/// The jump host is reached at its own host and port, as its own user, else as
/// the user of the target.
pub proof fn jumps_go_where_they_say(jump: ProxyJumpModel, target_user: Seq<char>)
    ensures
        jump_model(jump, target_user).0 == jump.host + seq![':'] + crate::number::decimal(
            jump.port as nat,
        ),
        jump.user matches Some(u) ==> jump_model(jump, target_user).1 == u,
        jump.user is None ==> jump_model(jump, target_user).1 == target_user,
{
    reveal_strlit(":");
    assert(":"@ =~= seq![':']);
}

/// Each kind of forward is read from its own option: local ones, SOCKS and HTTP
/// listeners with gateway ports as they are set, remote ones without.
pub proof fn forwards_come_from_their_options(cli: Cli, gateway_ports: bool)
    ensures
        forward_plan(cli, gateway_ports) matches Ok(p) ==> {
            &&& p.local.len() == cli.local_forward@.len()
            &&& p.remote.len() == cli.remote_forward@.len()
            &&& p.dynamic.len() == cli.dynamic_forward@.len()
            &&& p.http.len() == cli.http_proxy_connect@.len()
            &&& forall|i: int|
                0 <= i < p.local.len() ==> forward((#[trigger] cli.local_forward@[i])@, gateway_ports)
                    == Ok::<ForwardModel, SpecError>(p.local[i])
            &&& forall|i: int|
                0 <= i < p.remote.len() ==> forward((#[trigger] cli.remote_forward@[i])@, false)
                    == Ok::<ForwardModel, SpecError>(p.remote[i])
            &&& forall|i: int|
                0 <= i < p.dynamic.len() ==> dynamic_forward(
                    (#[trigger] cli.dynamic_forward@[i])@,
                    gateway_ports,
                ) == Ok::<DynamicForwardModel, SpecError>(p.dynamic[i])
            &&& forall|i: int|
                0 <= i < p.http.len() ==> dynamic_forward(
                    (#[trigger] cli.http_proxy_connect@[i])@,
                    gateway_ports,
                ) == Ok::<DynamicForwardModel, SpecError>(p.http[i])
        },
        forward_plan(cli, gateway_ports) is Err <==> (exists|i: int|
            0 <= i < cli.local_forward@.len() && forward(
                (#[trigger] cli.local_forward@[i])@,
                gateway_ports,
            ) is Err) || (exists|i: int|
            0 <= i < cli.remote_forward@.len() && forward(
                (#[trigger] cli.remote_forward@[i])@,
                false,
            ) is Err) || (exists|i: int|
            0 <= i < cli.dynamic_forward@.len() && dynamic_forward(
                (#[trigger] cli.dynamic_forward@[i])@,
                gateway_ports,
            ) is Err) || (exists|i: int|
            0 <= i < cli.http_proxy_connect@.len() && dynamic_forward(
                (#[trigger] cli.http_proxy_connect@[i])@,
                gateway_ports,
            ) is Err),
{
    let local = texts(cli.local_forward@);
    let remote = texts(cli.remote_forward@);
    let dynamic = texts(cli.dynamic_forward@);
    let http = texts(cli.http_proxy_connect@);
    forwards_are_read_in_order(local, gateway_ports);
    forwards_are_read_in_order(remote, false);
    listeners_are_read_in_order(dynamic, gateway_ports);
    listeners_are_read_in_order(http, gateway_ports);
    assert forall|i: int| 0 <= i < local.len() implies local[i] == (
    #[trigger] cli.local_forward@[i])@ by {}
    assert forall|i: int| 0 <= i < remote.len() implies remote[i] == (
    #[trigger] cli.remote_forward@[i])@ by {}
    assert forall|i: int| 0 <= i < dynamic.len() implies dynamic[i] == (
    #[trigger] cli.dynamic_forward@[i])@ by {}
    assert forall|i: int| 0 <= i < http.len() implies http[i] == (
    #[trigger] cli.http_proxy_connect@[i])@ by {}
    if forwards(local, gateway_ports) is Err {
        let i = choose|i: int|
            0 <= i < local.len() && forward(#[trigger] local[i], gateway_ports) is Err;
        assert(forward(cli.local_forward@[i]@, gateway_ports) is Err);
    }
    if forwards(remote, false) is Err {
        let i = choose|i: int| 0 <= i < remote.len() && forward(#[trigger] remote[i], false) is Err;
        assert(forward(cli.remote_forward@[i]@, false) is Err);
    }
    if listeners(dynamic, gateway_ports) is Err {
        let i = choose|i: int|
            0 <= i < dynamic.len() && dynamic_forward(#[trigger] dynamic[i], gateway_ports) is Err;
        assert(dynamic_forward(cli.dynamic_forward@[i]@, gateway_ports) is Err);
    }
    if listeners(http, gateway_ports) is Err {
        let i = choose|i: int|
            0 <= i < http.len() && dynamic_forward(#[trigger] http[i], gateway_ports) is Err;
        assert(dynamic_forward(cli.http_proxy_connect@[i]@, gateway_ports) is Err);
    }
}

/// `--push local:remote` uploads the local file to the remote path, and
/// `--pull remote:local` downloads the other way; a path without a tilde is
/// taken as it is, with slashes for backslashes. A spec without a colon is
/// refused.
pub proof fn transfers_go_where_they_say(
    first: Seq<char>,
    second: Seq<char>,
    bad: Seq<char>,
    r: Result<(Seq<char>, Seq<char>), TransferError>,
)
    requires
        first.len() > 1,
        !first.contains(':'),
        first[0] != '~',
        second.len() > 0,
        second[0] != '~',
        !bad.contains(':'),
    ensures
        uploads(first + seq![':'] + second, r) <==> r == Ok::<
            (Seq<char>, Seq<char>),
            TransferError,
        >((crate::paths::forward_slashes(first), crate::paths::forward_slashes(second))),
        downloads(first + seq![':'] + second, r) <==> r == Ok::<
            (Seq<char>, Seq<char>),
            TransferError,
        >((crate::paths::forward_slashes(first), crate::paths::forward_slashes(second))),
        uploads(bad, r) ==> r is Err,
        downloads(bad, r) ==> r is Err,
        synchronizes(bad, r) ==> r is Err,
{
    crate::paths::transfers_read_back(first, second);
    let a = crate::paths::forward_slashes(first);
    let b = crate::paths::forward_slashes(second);
    crate::paths::plain_paths_stay(first);
    crate::paths::plain_paths_stay(second);
    crate::paths::file_spec_splits(bad);
    if file_spec(bad) is Ok {
        crate::paths::slashes_bring_no_colon(bad);
        let (local, remote) = file_spec(bad)->Ok_0;
        assert((local + seq![':'] + remote)[local.len() as int] == ':');
        assert(crate::paths::forward_slashes(bad).contains(':'));
    }
}

/// `--rsync local:remote` synchronizes the two just if both are absolute; a path
/// without a tilde is taken as it is, with slashes for backslashes.
pub proof fn synchronized_paths_are_absolute(
    local: Seq<char>,
    remote: Seq<char>,
    r: Result<(Seq<char>, Seq<char>), TransferError>,
)
    requires
        local.len() > 1,
        !local.contains(':'),
        local[0] != '~',
        remote.len() > 0,
        remote[0] != '~',
        synchronizes(local + seq![':'] + remote, r),
    ensures
        ({
            let a = crate::paths::forward_slashes(local);
            let b = crate::paths::forward_slashes(remote);
            &&& absolute(a) && absolute(b) ==> r == Ok::<(Seq<char>, Seq<char>), TransferError>(
                (a, b),
            )
            &&& !(absolute(a) && absolute(b)) ==> r == Err::<
                (Seq<char>, Seq<char>),
                TransferError,
            >(TransferError::Relative)
        }),
{
    crate::paths::transfers_read_back(local, remote);
    crate::paths::plain_paths_stay(local);
    crate::paths::plain_paths_stay(remote);
}

/// A terminal is asked for unless `-T` forbids it or `-N` makes it pointless; and
/// `-t` asks for it even then, but not against `-T`.
pub proof fn terminals_are_asked_for(force: bool, no_command: bool)
    ensures
        !pty_wanted(true, force, no_command),
        pty_wanted(false, true, no_command),
        pty_wanted(false, false, false),
        !pty_wanted(false, false, true),
{
}

/// The terminal is named as the environment names it; a forward that fails ends
/// the run just if that is asked for.
pub proof fn terminals_and_failures_as_asked(name: Seq<char>)
    ensures
        terminal_name(Some(name)) == name,
        terminal_name(None) == "xterm-256color"@,
        failure_model(true) == ForwardFailure::Abort,
        failure_model(false) == ForwardFailure::Ignore,
{
}

proof fn without_fork_in_front(program: Seq<char>, args: Seq<Seq<char>>)
    requires
        program != "-f"@,
        program != "--fork"@,
    ensures
        without_fork(seq![program] + args) == seq![program] + without_fork(args),
    decreases args.len(),
{
    if args.len() == 0 {
        let none = Seq::<Seq<char>>::empty();
        forked_arguments_are_kept(none, program);
        assert(seq![program] + args =~= none.push(program));
        assert(args =~= none);
        assert(none.push(program) =~= seq![program] + none);
    } else {
        let front = args.drop_last();
        let last = args.last();
        without_fork_in_front(program, front);
        assert(args =~= front.push(last));
        assert(seq![program] + args =~= (seq![program] + front).push(last));
        forked_arguments_are_kept(front, last);
        forked_arguments_are_kept(seq![program] + front, last);
        assert(seq![program] + without_fork(front).push(last) =~= (seq![program] + without_fork(
            front,
        )).push(last));
    }
}

/// The copy in the background gets the arguments behind the program's name,
/// without those that ask for the background.
pub proof fn forks_get_the_arguments(program: Seq<char>, args: Seq<Seq<char>>)
    requires
        program != "-f"@,
        program != "--fork"@,
    ensures
        forked(seq![program] + args) == without_fork(args),
        !without_fork(args).contains("-f"@),
        !without_fork(args).contains("--fork"@),
{
    broadcast use vstd::seq_lib::group_filter_ensures;

    without_fork_in_front(program, args);
    assert((seq![program] + without_fork(args)).skip(1) =~= without_fork(args));
}

/// Errors are shown in full where more is logged than usual, and else in one
/// line.
pub proof fn errors_are_shown_as_asked(verbose: u8)
    ensures
        full_errors(verbose, true),
        verbose > 0 ==> full_errors(verbose, false),
        !full_errors(0, false),
{
}

/// The forwards that cannot be read are reported in order: local ones first, then
/// remote ones, then SOCKS and then HTTP listeners.
pub proof fn refused_forwards_in_order(cli: Cli, gateway_ports: bool)
    ensures
        ({
            let local = forwards(texts(cli.local_forward@), gateway_ports);
            let remote = forwards(texts(cli.remote_forward@), false);
            let dynamic = listeners(texts(cli.dynamic_forward@), gateway_ports);
            let http = listeners(texts(cli.http_proxy_connect@), gateway_ports);
            let plan = forward_plan(cli, gateway_ports);
            &&& local matches Err(e) ==> plan == Err::<ForwardPlanModel, (Seq<char>, SpecError)>(e)
            &&& local is Ok ==> (remote matches Err(e) ==> plan == Err::<
                ForwardPlanModel,
                (Seq<char>, SpecError),
            >(e))
            &&& local is Ok && remote is Ok ==> (dynamic matches Err(e) ==> plan == Err::<
                ForwardPlanModel,
                (Seq<char>, SpecError),
            >(e))
            &&& local is Ok && remote is Ok && dynamic is Ok ==> (http matches Err(e) ==> plan
                == Err::<ForwardPlanModel, (Seq<char>, SpecError)>(e))
        }),
{
}

/// There is a target just if the destination can be read and has a host; a
/// destination that cannot be read is refused with what is wrong with it,
/// whatever else is given.
pub proof fn targets_need_a_readable_host(
    dest: Seq<char>,
    cli_user: Option<Seq<char>>,
    port: u16,
    option_port: Option<Seq<char>>,
    config_host: Option<Seq<char>>,
    config_port: Option<u16>,
)
    ensures
        ({
            let found = found_target(
                dest,
                cli_user,
                port,
                option_port,
                config_host,
                config_port,
            );
            match destination(dest) {
                Err(e) => found == Err::<TargetModel, SpecError>(e),
                Ok((host, _, _)) => if host.len() == 0 {
                    found == Err::<TargetModel, SpecError>(SpecError::NoDestination)
                } else {
                    found is Ok
                },
            }
        }),
{
}

} // verus!
