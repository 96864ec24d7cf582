//! The agent's configuration: its layers (defaults, file, remote, environment),
//! how they are merged, and how the merged layer becomes the running settings.
use vstd::prelude::*;
use vstd::string::*;

use crate::text::{decimal, decimal_string, contains_string, trim, trim_string, comma_list, parse_comma_list, parse_u64, parse_u64_spec, chars_of, concat_str, has_prefix, same_chars, starts_with_chars, string_from_chars, strings_view};

verus! {

broadcast use vstd::string::group_string_axioms;

/// One layer of configuration, as read from a file, a remote source or the
/// built-in defaults. A field that is `None` leaves the field of the layers
/// below it in place.
#[derive(Debug, PartialEq, Eq)]
pub struct FileConfig {
    /// The server's host, or its `host:port`.
    pub server_addr: Option<String>,
    /// The server's port, where `server_addr` holds only the host.
    pub server_port: Option<u16>,
    pub server_name: Option<String>,
    pub ca_cert_path: Option<String>,
    pub agent_id: Option<String>,
    pub token: Option<String>,
    pub heartbeat_secs: Option<u64>,
    pub reconnect_max_secs: Option<u64>,
    pub command_whitelist: Option<Vec<String>>,
    pub file_path_whitelist: Option<Vec<String>>,
    pub config_url: Option<String>,
}

/// The mathematical content of a [`FileConfig`].
pub struct FileConfigView {
    pub server_addr: Option<Seq<char>>,
    pub server_port: Option<u16>,
    pub server_name: Option<Seq<char>>,
    pub ca_cert_path: Option<Seq<char>>,
    pub agent_id: Option<Seq<char>>,
    pub token: Option<Seq<char>>,
    pub heartbeat_secs: Option<u64>,
    pub reconnect_max_secs: Option<u64>,
    pub command_whitelist: Option<Seq<Seq<char>>>,
    pub file_path_whitelist: Option<Seq<Seq<char>>>,
    pub config_url: Option<Seq<char>>,
}

/// The view of an optional string.
pub open spec fn opt_str(o: Option<String>) -> Option<Seq<char>> {
    match o {
        Some(s) => Some(s@),
        None => None,
    }
}

/// The view of an optional borrowed string.
pub open spec fn opt_str_ref(o: Option<&str>) -> Option<Seq<char>> {
    match o {
        Some(s) => Some(s@),
        None => None,
    }
}

/// The view of an optional list of strings.
pub open spec fn opt_list(o: Option<Vec<String>>) -> Option<Seq<Seq<char>>> {
    match o {
        Some(v) => Some(strings_view(v@)),
        None => None,
    }
}

impl View for FileConfig {
    type V = FileConfigView;

    open spec fn view(&self) -> FileConfigView {
        FileConfigView {
            server_addr: opt_str(self.server_addr),
            server_port: self.server_port,
            server_name: opt_str(self.server_name),
            ca_cert_path: opt_str(self.ca_cert_path),
            agent_id: opt_str(self.agent_id),
            token: opt_str(self.token),
            heartbeat_secs: self.heartbeat_secs,
            reconnect_max_secs: self.reconnect_max_secs,
            command_whitelist: opt_list(self.command_whitelist),
            file_path_whitelist: opt_list(self.file_path_whitelist),
            config_url: opt_str(self.config_url),
        }
    }
}

/// A field of the upper layer where it is set, else the field of the lower one.
pub open spec fn overlay<T>(base: Option<T>, incoming: Option<T>) -> Option<T> {
    if incoming is Some {
        incoming
    } else {
        base
    }
}

/// `incoming` laid over `base`, field by field.
pub open spec fn merge_spec(base: FileConfigView, incoming: FileConfigView) -> FileConfigView {
    FileConfigView {
        server_addr: overlay(base.server_addr, incoming.server_addr),
        server_port: overlay(base.server_port, incoming.server_port),
        server_name: overlay(base.server_name, incoming.server_name),
        ca_cert_path: overlay(base.ca_cert_path, incoming.ca_cert_path),
        agent_id: overlay(base.agent_id, incoming.agent_id),
        token: overlay(base.token, incoming.token),
        heartbeat_secs: overlay(base.heartbeat_secs, incoming.heartbeat_secs),
        reconnect_max_secs: overlay(base.reconnect_max_secs, incoming.reconnect_max_secs),
        command_whitelist: overlay(base.command_whitelist, incoming.command_whitelist),
        file_path_whitelist: overlay(base.file_path_whitelist, incoming.file_path_whitelist),
        config_url: overlay(base.config_url, incoming.config_url),
    }
}

/// The layer that sets nothing.
pub open spec fn empty_layer() -> FileConfigView {
    FileConfigView {
        server_addr: None,
        server_port: None,
        server_name: None,
        ca_cert_path: None,
        agent_id: None,
        token: None,
        heartbeat_secs: None,
        reconnect_max_secs: None,
        command_whitelist: None,
        file_path_whitelist: None,
        config_url: None,
    }
}

/// Lays `incoming` over `base`: every field that `incoming` sets replaces the
/// field of `base`; the others keep the value of `base`.
pub fn merge(base: FileConfig, incoming: FileConfig) -> (r: FileConfig)
    ensures
        r@ == merge_spec(base@, incoming@),
        incoming.server_addr is Some ==> r.server_addr == incoming.server_addr,
        incoming.server_addr is None ==> r.server_addr == base.server_addr,
        incoming.server_port is Some ==> r.server_port == incoming.server_port,
        incoming.server_port is None ==> r.server_port == base.server_port,
        incoming.server_name is Some ==> r.server_name == incoming.server_name,
        incoming.server_name is None ==> r.server_name == base.server_name,
        incoming.ca_cert_path is Some ==> r.ca_cert_path == incoming.ca_cert_path,
        incoming.ca_cert_path is None ==> r.ca_cert_path == base.ca_cert_path,
        incoming.agent_id is Some ==> r.agent_id == incoming.agent_id,
        incoming.agent_id is None ==> r.agent_id == base.agent_id,
        incoming.token is Some ==> r.token == incoming.token,
        incoming.token is None ==> r.token == base.token,
        incoming.heartbeat_secs is Some ==> r.heartbeat_secs == incoming.heartbeat_secs,
        incoming.heartbeat_secs is None ==> r.heartbeat_secs == base.heartbeat_secs,
        incoming.reconnect_max_secs is Some ==> r.reconnect_max_secs == incoming.reconnect_max_secs,
        incoming.reconnect_max_secs is None ==> r.reconnect_max_secs == base.reconnect_max_secs,
        incoming.command_whitelist is Some ==> r.command_whitelist == incoming.command_whitelist,
        incoming.command_whitelist is None ==> r.command_whitelist == base.command_whitelist,
        incoming.file_path_whitelist is Some ==> r.file_path_whitelist == incoming.file_path_whitelist,
        incoming.file_path_whitelist is None ==> r.file_path_whitelist == base.file_path_whitelist,
        incoming.config_url is Some ==> r.config_url == incoming.config_url,
        incoming.config_url is None ==> r.config_url == base.config_url,
{
    let mut base = base;
    if incoming.server_addr.is_some() {
        base.server_addr = incoming.server_addr;
    }
    if incoming.server_port.is_some() {
        base.server_port = incoming.server_port;
    }
    if incoming.server_name.is_some() {
        base.server_name = incoming.server_name;
    }
    if incoming.ca_cert_path.is_some() {
        base.ca_cert_path = incoming.ca_cert_path;
    }
    if incoming.agent_id.is_some() {
        base.agent_id = incoming.agent_id;
    }
    if incoming.token.is_some() {
        base.token = incoming.token;
    }
    if incoming.heartbeat_secs.is_some() {
        base.heartbeat_secs = incoming.heartbeat_secs;
    }
    if incoming.reconnect_max_secs.is_some() {
        base.reconnect_max_secs = incoming.reconnect_max_secs;
    }
    if incoming.command_whitelist.is_some() {
        base.command_whitelist = incoming.command_whitelist;
    }
    if incoming.file_path_whitelist.is_some() {
        base.file_path_whitelist = incoming.file_path_whitelist;
    }
    if incoming.config_url.is_some() {
        base.config_url = incoming.config_url;
    }
    base
}

/// Merging layers is associative: laying `c` over the merge of `a` and `b`
/// gives what laying the merge of `b` and `c` over `a` gives.
pub proof fn lemma_merge_associative(a: FileConfigView, b: FileConfigView, c: FileConfigView)
    ensures
        merge_spec(merge_spec(a, b), c) == merge_spec(a, merge_spec(b, c)),
{
}

/// A layer that sets nothing changes nothing, laid over or under another.
pub proof fn lemma_merge_empty_identity(a: FileConfigView)
    ensures
        merge_spec(a, empty_layer()) == a,
        merge_spec(empty_layer(), a) == a,
{
}

/// Laying a layer over itself changes nothing.
pub proof fn lemma_merge_idempotent(a: FileConfigView)
    ensures
        merge_spec(a, a) == a,
{
}

/// Laying a layer that sets a field over any layer gives that field its value,
/// and a field it leaves unset keeps the value of the layer below; this holds
/// for every field.
pub proof fn lemma_merge_upper_wins(base: FileConfigView, upper: FileConfigView)
    ensures
        upper.server_addr is Some ==> merge_spec(base, upper).server_addr == upper.server_addr,
        upper.server_addr is None ==> merge_spec(base, upper).server_addr == base.server_addr,
        upper.server_port is Some ==> merge_spec(base, upper).server_port == upper.server_port,
        upper.server_port is None ==> merge_spec(base, upper).server_port == base.server_port,
        upper.server_name is Some ==> merge_spec(base, upper).server_name == upper.server_name,
        upper.server_name is None ==> merge_spec(base, upper).server_name == base.server_name,
        upper.ca_cert_path is Some ==> merge_spec(base, upper).ca_cert_path == upper.ca_cert_path,
        upper.ca_cert_path is None ==> merge_spec(base, upper).ca_cert_path == base.ca_cert_path,
        upper.agent_id is Some ==> merge_spec(base, upper).agent_id == upper.agent_id,
        upper.agent_id is None ==> merge_spec(base, upper).agent_id == base.agent_id,
        upper.token is Some ==> merge_spec(base, upper).token == upper.token,
        upper.token is None ==> merge_spec(base, upper).token == base.token,
        upper.heartbeat_secs is Some ==> merge_spec(base, upper).heartbeat_secs == upper.heartbeat_secs,
        upper.heartbeat_secs is None ==> merge_spec(base, upper).heartbeat_secs == base.heartbeat_secs,
        upper.reconnect_max_secs is Some ==> merge_spec(base, upper).reconnect_max_secs == upper.reconnect_max_secs,
        upper.reconnect_max_secs is None ==> merge_spec(base, upper).reconnect_max_secs == base.reconnect_max_secs,
        upper.command_whitelist is Some ==> merge_spec(base, upper).command_whitelist == upper.command_whitelist,
        upper.command_whitelist is None ==> merge_spec(base, upper).command_whitelist == base.command_whitelist,
        upper.file_path_whitelist is Some ==> merge_spec(base, upper).file_path_whitelist == upper.file_path_whitelist,
        upper.file_path_whitelist is None ==> merge_spec(base, upper).file_path_whitelist == base.file_path_whitelist,
        upper.config_url is Some ==> merge_spec(base, upper).config_url == upper.config_url,
        upper.config_url is None ==> merge_spec(base, upper).config_url == base.config_url,
{
}

/// The agent id used when none is configured.
pub open spec fn default_agent_id() -> Seq<char> {
    "mac-agent-001"@
}

/// The heartbeat period, in seconds, used when none is configured.
pub open spec fn default_heartbeat_secs() -> u64 {
    30
}

/// The reconnection interval, in seconds, used when none is configured.
pub open spec fn default_reconnect_secs() -> u64 {
    5
}

/// The commands allowed by default, in order.
pub open spec fn default_command_whitelist() -> Seq<Seq<char>> {
    seq!["ls"@, "pwd"@, "echo"@, "date"@, "whoami"@]
}

/// The path roots allowed by default, in order.
pub open spec fn default_path_whitelist() -> Seq<Seq<char>> {
    seq!["$HOME"@, "/tmp"@]
}

/// The built-in layer: the configuration file written on first run.
pub open spec fn defaults_spec() -> FileConfigView {
    FileConfigView {
        server_addr: Some("127.0.0.1"@),
        server_port: Some(4433),
        server_name: Some("localhost"@),
        ca_cert_path: Some("ca.pem"@),
        agent_id: Some(default_agent_id()),
        token: Some("default-token"@),
        heartbeat_secs: Some(default_heartbeat_secs()),
        reconnect_max_secs: Some(default_reconnect_secs()),
        command_whitelist: Some(default_command_whitelist()),
        file_path_whitelist: Some(default_path_whitelist()),
        config_url: None,
    }
}

impl FileConfig {
    /// The built-in layer: server `127.0.0.1`, port 4433, agent
    /// `mac-agent-001`, token `default-token`, reconnection every 5 seconds,
    /// a heartbeat every 30, and the commands ls, pwd, echo, date and whoami.
    pub fn defaults() -> (r: FileConfig)
        ensures
            r@ == defaults_spec(),
    {
        let commands: Vec<String> = vec![
            String::from_str("ls"),
            String::from_str("pwd"),
            String::from_str("echo"),
            String::from_str("date"),
            String::from_str("whoami"),
        ];
        let paths: Vec<String> = vec![String::from_str("$HOME"), String::from_str("/tmp")];
        assert(strings_view(commands@) =~= default_command_whitelist());
        assert(strings_view(paths@) =~= default_path_whitelist());
        FileConfig {
            server_addr: Some(String::from_str("127.0.0.1")),
            server_port: Some(4433),
            server_name: Some(String::from_str("localhost")),
            ca_cert_path: Some(String::from_str("ca.pem")),
            agent_id: Some(String::from_str("mac-agent-001")),
            token: Some(String::from_str("default-token")),
            heartbeat_secs: Some(30),
            reconnect_max_secs: Some(5),
            command_whitelist: Some(commands),
            file_path_whitelist: Some(paths),
            config_url: None,
        }
    }
}

/// The raw values of the environment variables that override the merged
/// layer; a field is `Some` exactly when its variable is set.
#[derive(Debug)]
pub struct EnvOverrides {
    /// `OC_SERVER_ADDR`
    pub server_addr: Option<String>,
    /// `OC_SERVER_NAME`
    pub server_name: Option<String>,
    /// `OC_CA_CERT`
    pub ca_cert_path: Option<String>,
    /// `OC_AGENT_ID`
    pub agent_id: Option<String>,
    /// `OC_TOKEN`
    pub token: Option<String>,
    /// `OC_HEARTBEAT_SECS`
    pub heartbeat_secs: Option<String>,
    /// `OC_RECONNECT_MAX_SECS`
    pub reconnect_max_secs: Option<String>,
    /// `OC_WHITELIST`, a comma-separated list
    pub whitelist: Option<String>,
    /// `OC_PATH_WHITELIST`, a comma-separated list
    pub path_whitelist: Option<String>,
}

/// A number read from an environment variable: set only when the variable is
/// set and holds a valid `u64`.
pub open spec fn env_number(raw: Option<String>) -> Option<u64> {
    match raw {
        Some(v) => parse_u64_spec(v@),
        None => None,
    }
}

/// The command whitelist from `OC_WHITELIST`: set only when the variable
/// names at least one command.
pub open spec fn env_command_list(raw: Option<String>) -> Option<Seq<Seq<char>>> {
    match raw {
        Some(v) => if comma_list(v@).len() > 0 {
            Some(comma_list(v@))
        } else {
            None
        },
        None => None,
    }
}

/// The path whitelist from `OC_PATH_WHITELIST`: set whenever the variable is
/// set, even to an empty list.
pub open spec fn env_path_list(raw: Option<String>) -> Option<Seq<Seq<char>>> {
    match raw {
        Some(v) => Some(comma_list(v@)),
        None => None,
    }
}

/// The environment, read as one more configuration layer.
pub open spec fn env_layer(env: EnvOverrides) -> FileConfigView {
    FileConfigView {
        server_addr: opt_str(env.server_addr),
        server_port: None,
        server_name: opt_str(env.server_name),
        ca_cert_path: opt_str(env.ca_cert_path),
        agent_id: opt_str(env.agent_id),
        token: opt_str(env.token),
        heartbeat_secs: env_number(env.heartbeat_secs),
        reconnect_max_secs: env_number(env.reconnect_max_secs),
        command_whitelist: env_command_list(env.whitelist),
        file_path_whitelist: env_path_list(env.path_whitelist),
        config_url: None,
    }
}

fn clone_opt(o: &Option<String>) -> (r: Option<String>)
    ensures
        opt_str(r) == opt_str(*o),
{
    match o {
        Some(s) => Some(s.clone()),
        None => None,
    }
}

/// Applies the environment overrides to `cfg`: the environment is laid over
/// `cfg` as one more layer (see [`env_layer`]).
pub fn apply_env_overrides(cfg: &mut FileConfig, env: &EnvOverrides)
    ensures
        final(cfg)@ == merge_spec(old(cfg)@, env_layer(*env)),
        env.server_addr is Some ==> opt_str(final(cfg).server_addr) == opt_str(env.server_addr),
        env.server_addr is None ==> final(cfg).server_addr == old(cfg).server_addr,
        env.server_name is Some ==> opt_str(final(cfg).server_name) == opt_str(env.server_name),
        env.server_name is None ==> final(cfg).server_name == old(cfg).server_name,
        env.ca_cert_path is Some ==> opt_str(final(cfg).ca_cert_path) == opt_str(env.ca_cert_path),
        env.ca_cert_path is None ==> final(cfg).ca_cert_path == old(cfg).ca_cert_path,
        env.agent_id is Some ==> opt_str(final(cfg).agent_id) == opt_str(env.agent_id),
        env.agent_id is None ==> final(cfg).agent_id == old(cfg).agent_id,
        env.token is Some ==> opt_str(final(cfg).token) == opt_str(env.token),
        env.token is None ==> final(cfg).token == old(cfg).token,
        env_number(env.heartbeat_secs) is Some ==> final(cfg).heartbeat_secs == env_number(
            env.heartbeat_secs,
        ),
        env_number(env.heartbeat_secs) is None ==> final(cfg).heartbeat_secs == old(cfg).heartbeat_secs,
        env_number(env.reconnect_max_secs) is Some ==> final(cfg).reconnect_max_secs == env_number(
            env.reconnect_max_secs,
        ),
        env_number(env.reconnect_max_secs) is None ==> final(cfg).reconnect_max_secs == old(cfg).reconnect_max_secs,
        env_command_list(env.whitelist) is Some ==> opt_list(final(cfg).command_whitelist)
            == env_command_list(env.whitelist),
        env_command_list(env.whitelist) is None ==> final(cfg).command_whitelist == old(cfg).command_whitelist,
        env.path_whitelist matches Some(v) ==> opt_list(final(cfg).file_path_whitelist) == Some(
            comma_list(v@),
        ),
        env.path_whitelist is None ==> final(cfg).file_path_whitelist == old(cfg).file_path_whitelist,
        final(cfg).server_port == old(cfg).server_port,
        final(cfg).config_url == old(cfg).config_url,
{
    if env.server_addr.is_some() {
        cfg.server_addr = clone_opt(&env.server_addr);
    }
    if env.server_name.is_some() {
        cfg.server_name = clone_opt(&env.server_name);
    }
    if env.ca_cert_path.is_some() {
        cfg.ca_cert_path = clone_opt(&env.ca_cert_path);
    }
    if env.agent_id.is_some() {
        cfg.agent_id = clone_opt(&env.agent_id);
    }
    if env.token.is_some() {
        cfg.token = clone_opt(&env.token);
    }
    if let Some(v) = &env.heartbeat_secs {
        if let Some(parsed) = parse_u64(v.as_str()) {
            cfg.heartbeat_secs = Some(parsed);
        }
    }
    if let Some(v) = &env.reconnect_max_secs {
        if let Some(parsed) = parse_u64(v.as_str()) {
            cfg.reconnect_max_secs = Some(parsed);
        }
    }
    if let Some(v) = &env.whitelist {
        let list = parse_comma_list(v.as_str());
        if list.len() > 0 {
            cfg.command_whitelist = Some(list);
        }
    }
    if let Some(v) = &env.path_whitelist {
        let list = parse_comma_list(v.as_str());
        cfg.file_path_whitelist = Some(list);
    }
}

/// The layers in the order they apply: the built-in defaults, then the
/// file, then the remote layer, then the environment; a layer that could not
/// be read is `None` and is skipped.
pub open spec fn layered_spec(
    file: Option<FileConfigView>,
    remote: Option<FileConfigView>,
    env: FileConfigView,
) -> FileConfigView {
    merge_spec(
        merge_spec(merge_spec(defaults_spec(), or_default(file, empty_layer())), or_default(remote, empty_layer())),
        env,
    )
}

/// The view of a layer that may be missing.
pub open spec fn opt_layer(o: Option<FileConfig>) -> Option<FileConfigView> {
    match o {
        Some(l) => Some(l@),
        None => None,
    }
}

/// Lays the configuration layers over one another in order: the defaults,
/// the file, the remote layer and the environment, each set field of a later
/// layer replacing the earlier value.
pub fn layered(file: Option<FileConfig>, remote: Option<FileConfig>, env: &EnvOverrides) -> (r:
    FileConfig)
    ensures
        r@ == layered_spec(opt_layer(file), opt_layer(remote), env_layer(*env)),
{
    let mut merged = FileConfig::defaults();
    proof {
        lemma_merge_empty_identity(merged@);
    }
    if let Some(local) = file {
        merged = merge(merged, local);
    }
    proof {
        lemma_merge_empty_identity(merged@);
    }
    if let Some(remote_cfg) = remote {
        merged = merge(merged, remote_cfg);
    }
    apply_env_overrides(&mut merged, env);
    merged
}

/// For every field: a value set by the environment wins; else one set by the
/// remote layer; else one set by the file; else the default.
pub proof fn lemma_layer_precedence(
    file: Option<FileConfigView>,
    remote: Option<FileConfigView>,
    env: FileConfigView,
)
    ensures
        layered_spec(file, remote, env).server_addr == if env.server_addr is Some {
            env.server_addr
        } else if remote matches Some(r) && r.server_addr is Some {
            remote->0.server_addr
        } else if file matches Some(l) && l.server_addr is Some {
            file->0.server_addr
        } else {
            defaults_spec().server_addr
        },
        layered_spec(file, remote, env).server_port == if env.server_port is Some {
            env.server_port
        } else if remote matches Some(r) && r.server_port is Some {
            remote->0.server_port
        } else if file matches Some(l) && l.server_port is Some {
            file->0.server_port
        } else {
            defaults_spec().server_port
        },
        layered_spec(file, remote, env).server_name == if env.server_name is Some {
            env.server_name
        } else if remote matches Some(r) && r.server_name is Some {
            remote->0.server_name
        } else if file matches Some(l) && l.server_name is Some {
            file->0.server_name
        } else {
            defaults_spec().server_name
        },
        layered_spec(file, remote, env).ca_cert_path == if env.ca_cert_path is Some {
            env.ca_cert_path
        } else if remote matches Some(r) && r.ca_cert_path is Some {
            remote->0.ca_cert_path
        } else if file matches Some(l) && l.ca_cert_path is Some {
            file->0.ca_cert_path
        } else {
            defaults_spec().ca_cert_path
        },
        layered_spec(file, remote, env).agent_id == if env.agent_id is Some {
            env.agent_id
        } else if remote matches Some(r) && r.agent_id is Some {
            remote->0.agent_id
        } else if file matches Some(l) && l.agent_id is Some {
            file->0.agent_id
        } else {
            defaults_spec().agent_id
        },
        layered_spec(file, remote, env).token == if env.token is Some {
            env.token
        } else if remote matches Some(r) && r.token is Some {
            remote->0.token
        } else if file matches Some(l) && l.token is Some {
            file->0.token
        } else {
            defaults_spec().token
        },
        layered_spec(file, remote, env).heartbeat_secs == if env.heartbeat_secs is Some {
            env.heartbeat_secs
        } else if remote matches Some(r) && r.heartbeat_secs is Some {
            remote->0.heartbeat_secs
        } else if file matches Some(l) && l.heartbeat_secs is Some {
            file->0.heartbeat_secs
        } else {
            defaults_spec().heartbeat_secs
        },
        layered_spec(file, remote, env).reconnect_max_secs == if env.reconnect_max_secs is Some {
            env.reconnect_max_secs
        } else if remote matches Some(r) && r.reconnect_max_secs is Some {
            remote->0.reconnect_max_secs
        } else if file matches Some(l) && l.reconnect_max_secs is Some {
            file->0.reconnect_max_secs
        } else {
            defaults_spec().reconnect_max_secs
        },
        layered_spec(file, remote, env).command_whitelist == if env.command_whitelist is Some {
            env.command_whitelist
        } else if remote matches Some(r) && r.command_whitelist is Some {
            remote->0.command_whitelist
        } else if file matches Some(l) && l.command_whitelist is Some {
            file->0.command_whitelist
        } else {
            defaults_spec().command_whitelist
        },
        layered_spec(file, remote, env).file_path_whitelist == if env.file_path_whitelist is Some {
            env.file_path_whitelist
        } else if remote matches Some(r) && r.file_path_whitelist is Some {
            remote->0.file_path_whitelist
        } else if file matches Some(l) && l.file_path_whitelist is Some {
            file->0.file_path_whitelist
        } else {
            defaults_spec().file_path_whitelist
        },
        layered_spec(file, remote, env).config_url == if env.config_url is Some {
            env.config_url
        } else if remote matches Some(r) && r.config_url is Some {
            remote->0.config_url
        } else if file matches Some(l) && l.config_url is Some {
            file->0.config_url
        } else {
            defaults_spec().config_url
        },
{
}

/// The URL of the remote layer: `OC_CONFIG_URL` where it is set and not
/// empty, else the `config_url` of the merged layer.
pub open spec fn remote_config_url_spec(env_url: Option<Seq<char>>, merged: FileConfigView) -> Option<
    Seq<char>,
> {
    match env_url {
        Some(u) => if u.len() > 0 {
            Some(u)
        } else {
            merged.config_url
        },
        None => merged.config_url,
    }
}

/// Where to fetch the remote layer from, if anywhere, given the file layer
/// (`None` where the file could not be read): the URL is looked up in the
/// defaults with the file laid over them.
pub fn remote_config_url(env_url: Option<String>, file: Option<&FileConfig>) -> (r: Option<String>)
    ensures
        opt_str(r) == remote_config_url_spec(
            opt_str(env_url),
            merge_spec(
                defaults_spec(),
                match file {
                    Some(f) => f@,
                    None => empty_layer(),
                },
            ),
        ),
{
    let configured = match file {
        Some(f) => clone_opt(&f.config_url),
        None => None,
    };
    match env_url {
        Some(u) => if u.as_str().is_empty() {
            configured
        } else {
            Some(u)
        },
        None => configured,
    }
}

/// `PathBuf::join` on Unix: an absolute `p` replaces `base`; otherwise `p` is
/// appended, with a `/` between them where `base` is not empty and does not
/// already end in one.
pub open spec fn join_spec(base: Seq<char>, p: Seq<char>) -> Seq<char> {
    if p.len() > 0 && p[0] == '/' {
        p
    } else if base.len() > 0 && base.last() != '/' {
        base + seq!['/'] + p
    } else {
        base + p
    }
}

/// Joins the path `p` onto `base`, as `Path::join` does on Unix.
pub fn join_path(base: &str, p: &str) -> (r: String)
    ensures
        r@ == join_spec(base@, p@),
{
    let pv = chars_of(p);
    let bv = chars_of(base);
    if pv.len() > 0 && pv[0] == '/' {
        return String::from_str(p);
    }
    if bv.len() > 0 && bv[bv.len() - 1] != '/' {
        let mut r = concat_str(base, "/");
        r.append(p);
        proof {
            reveal_strlit("/");
        }
        return r;
    }
    concat_str(base, p)
}

/// `input` with a leading `$HOME` or `~` replaced by the home directory, when
/// one is known.
pub open spec fn expand_home_spec(input: Seq<char>, home: Option<Seq<char>>) -> Seq<char> {
    match home {
        Some(h) => if has_prefix(input, "$HOME/"@) {
            join_spec(h, input.skip("$HOME/"@.len() as int))
        } else if input == "$HOME"@ {
            h
        } else if has_prefix(input, "~/"@) {
            join_spec(h, input.skip("~/"@.len() as int))
        } else if input == "~"@ {
            h
        } else {
            input
        },
        None => input,
    }
}

/// Expands a leading `$HOME` or `~` in `input` to the home directory `home`.
/// Without a home directory, `input` is kept as it is.
pub fn expand_home(input: &str, home: Option<&str>) -> (r: String)
    ensures
        r@ == expand_home_spec(input@, opt_str_ref(home)),
{
    let h = match home {
        Some(h) => h,
        None => {
            return String::from_str(input);
        },
    };
    let v = chars_of(input);
    let home_slash = chars_of("$HOME/");
    if starts_with_chars(&v, &home_slash) {
        let rest = string_from_chars(&v, home_slash.len(), v.len());
        assert(v@.subrange(home_slash@.len() as int, v@.len() as int) =~= input@.skip(
            "$HOME/"@.len() as int,
        ));
        return join_path(h, rest.as_str());
    }
    if same_chars(&v, &chars_of("$HOME")) {
        return String::from_str(h);
    }
    let tilde_slash = chars_of("~/");
    if starts_with_chars(&v, &tilde_slash) {
        let rest = string_from_chars(&v, tilde_slash.len(), v.len());
        assert(v@.subrange(tilde_slash@.len() as int, v@.len() as int) =~= input@.skip(
            "~/"@.len() as int,
        ));
        return join_path(h, rest.as_str());
    }
    if same_chars(&v, &chars_of("~")) {
        return String::from_str(h);
    }
    String::from_str(input)
}

/// Why the configuration could not be resolved.
#[derive(Debug, PartialEq, Eq)]
pub enum ConfigError {
    /// No configuration path was given and `HOME` is not set.
    HomeNotSet,
    /// The command whitelist holds no command.
    EmptyWhitelist,
}

impl ConfigError {
    /// The human-readable text of the error.
    pub fn message(&self) -> (m: String)
        ensures
            match self {
                ConfigError::HomeNotSet => m@ == "HOME not set"@,
                ConfigError::EmptyWhitelist => m@ == "command whitelist cannot be empty"@,
            },
    {
        match self {
            ConfigError::HomeNotSet => String::from_str("HOME not set"),
            ConfigError::EmptyWhitelist => String::from_str("command whitelist cannot be empty"),
        }
    }
}

/// Where the configuration file lives: `OC_CONFIG_FILE` where it is set;
/// else `config.json` in `OC_CONFIG_DIR`, or in `.openclaw-agent` under the
/// home directory. Both variables are read with the home directory expanded.
pub open spec fn config_file_path_spec(
    config_file: Option<Seq<char>>,
    config_dir: Option<Seq<char>>,
    home: Option<Seq<char>>,
) -> Result<Seq<char>, ConfigError> {
    match config_file {
        Some(f) => Ok(expand_home_spec(f, home)),
        None => match config_dir {
            Some(d) => Ok(join_spec(expand_home_spec(d, home), "config.json"@)),
            None => match home {
                Some(h) => Ok(join_spec(join_spec(h, ".openclaw-agent"@), "config.json"@)),
                None => Err(ConfigError::HomeNotSet),
            },
        },
    }
}

/// A configuration directory given as `~/rest` lies under the home
/// directory: the file is `home/rest/config.json`.
pub proof fn lemma_config_dir_under_tilde(rest: Seq<char>, h: Seq<char>)
    requires
        rest.len() > 0,
        rest[0] != '/',
        rest.last() != '/',
        h.len() > 0,
        h.last() != '/',
    ensures
        config_file_path_spec(None, Some("~/"@ + rest), Some(h)) == Ok::<Seq<char>, ConfigError>(
            h + seq!['/'] + rest + seq!['/'] + "config.json"@,
        ),
{
    reveal_strlit("~/");
    reveal_strlit("$HOME/");
    reveal_strlit("$HOME");
    reveal_strlit("~");
    reveal_strlit("config.json");
    let d = "~/"@ + rest;
    assert(d[0] == '~');
    assert(!has_prefix(d, "$HOME/"@)) by {
        if has_prefix(d, "$HOME/"@) {
            assert(d.take(6)[0] == '$');
        }
    }
    assert(d != "$HOME"@) by {
        if d == "$HOME"@ {
            assert(d[0] == '$');
        }
    }
    assert(d.take(2) =~= "~/"@);
    assert(d.skip(2) =~= rest);
    let base = h + seq!['/'] + rest;
    assert(base.last() == rest.last());
    assert("config.json"@[0] == 'c');
}

/// A configuration directory given as `$HOME/rest` lies under the home
/// directory: the file is `home/rest/config.json`.
pub proof fn lemma_config_dir_under_home_var(rest: Seq<char>, h: Seq<char>)
    requires
        rest.len() > 0,
        rest[0] != '/',
        rest.last() != '/',
        h.len() > 0,
        h.last() != '/',
    ensures
        config_file_path_spec(None, Some("$HOME/"@ + rest), Some(h)) == Ok::<Seq<char>, ConfigError>(
            h + seq!['/'] + rest + seq!['/'] + "config.json"@,
        ),
{
    reveal_strlit("$HOME/");
    reveal_strlit("config.json");
    let d = "$HOME/"@ + rest;
    assert(d.take(6) =~= "$HOME/"@);
    assert(d.skip(6) =~= rest);
    let base = h + seq!['/'] + rest;
    assert(base.last() == rest.last());
    assert("config.json"@[0] == 'c');
}

/// With neither variable set, the file is `home/.openclaw-agent/config.json`;
/// without a home directory there is no path.
pub proof fn lemma_config_default_location(h: Seq<char>)
    requires
        h.len() > 0,
        h.last() != '/',
    ensures
        config_file_path_spec(None, None, Some(h)) == Ok::<Seq<char>, ConfigError>(
            h + seq!['/'] + ".openclaw-agent"@ + seq!['/'] + "config.json"@,
        ),
        config_file_path_spec(None, None, None) == Err::<Seq<char>, ConfigError>(
            ConfigError::HomeNotSet,
        ),
{
    reveal_strlit(".openclaw-agent");
    reveal_strlit("config.json");
    assert(".openclaw-agent"@[0] == '.');
    assert("config.json"@[0] == 'c');
    let base = h + seq!['/'] + ".openclaw-agent"@;
    assert(base.last() == 't');
}

/// A configuration file that is named wins over the directory: the
/// directory then makes no difference, and a home directory is not needed.
pub proof fn lemma_config_file_wins(f: Seq<char>, d: Option<Seq<char>>, h: Option<Seq<char>>)
    ensures
        config_file_path_spec(Some(f), d, h) == config_file_path_spec(Some(f), None, h),
        config_file_path_spec(Some(f), d, None) == Ok::<Seq<char>, ConfigError>(f),
{
}

/// The path of the configuration file, from the values of `OC_CONFIG_FILE`,
/// `OC_CONFIG_DIR` and `HOME`.
pub fn config_file_path(config_file: Option<&str>, config_dir: Option<&str>, home: Option<&str>) -> (r:
    Result<String, ConfigError>)
    ensures
        match (r, config_file_path_spec(
            opt_str_ref(config_file),
            opt_str_ref(config_dir),
            opt_str_ref(home),
        )) {
            (Ok(p), Ok(q)) => p@ == q,
            (Err(e), Err(f)) => e == f,
            _ => false,
        },
{
    if let Some(raw) = config_file {
        return Ok(expand_home(raw, home));
    }
    let base = if let Some(raw) = config_dir {
        expand_home(raw, home)
    } else {
        match home {
            Some(h) => join_path(h, ".openclaw-agent"),
            None => {
                return Err(ConfigError::HomeNotSet);
            },
        }
    };
    Ok(join_path(base.as_str(), "config.json"))
}

/// The distinct trimmed, non-empty entries of `list`, in the order of their
/// first occurrence.
pub open spec fn distinct_trimmed(list: Seq<Seq<char>>) -> Seq<Seq<char>>
    decreases list.len(),
{
    if list.len() == 0 {
        Seq::empty()
    } else {
        let rest = distinct_trimmed(list.drop_last());
        let t = trim(list.last());
        if t.len() > 0 && !rest.contains(t) {
            rest.push(t)
        } else {
            rest
        }
    }
}

/// The entries of a whitelist read as a set: each entry trimmed, empty ones
/// dropped.
pub open spec fn whitelist_entry(list: Seq<Seq<char>>, t: Seq<char>) -> bool {
    t.len() > 0 && exists|i: int| 0 <= i < list.len() && trim(#[trigger] list[i]) == t
}

/// [`distinct_trimmed`] holds each trimmed entry exactly once, and nothing else.
pub proof fn lemma_distinct_trimmed(list: Seq<Seq<char>>)
    ensures
        distinct_trimmed(list).no_duplicates(),
        forall|t: Seq<char>| #[trigger] distinct_trimmed(list).contains(t) <==> whitelist_entry(list, t),
    decreases list.len(),
{
    if list.len() > 0 {
        let prev = list.drop_last();
        lemma_distinct_trimmed(prev);
        let rest = distinct_trimmed(prev);
        let t = trim(list.last());
        assert forall|u: Seq<char>| #[trigger] distinct_trimmed(list).contains(u) <==> whitelist_entry(list, u) by {
            if whitelist_entry(prev, u) {
                let i = choose|i: int| 0 <= i < prev.len() && trim(#[trigger] prev[i]) == u;
                assert(list[i] == prev[i]);
            }
            if whitelist_entry(list, u) {
                let i = choose|i: int| 0 <= i < list.len() && trim(#[trigger] list[i]) == u;
                if i < list.len() - 1 {
                    assert(prev[i] == list[i]);
                    assert(whitelist_entry(prev, u));
                }
            }
            if t.len() > 0 && !rest.contains(t) {
                if rest.push(t).contains(u) {
                    let k = choose|k: int| 0 <= k < rest.push(t).len() && rest.push(t)[k] == u;
                    if k < rest.len() {
                        assert(rest.contains(u));
                    }
                }
                if rest.contains(u) {
                    let k = choose|k: int| 0 <= k < rest.len() && rest[k] == u;
                    assert(rest.push(t)[k] == u);
                }
                if u == t {
                    assert(rest.push(t)[rest.len() as int] == u);
                }
            }
        }
        if t.len() > 0 && !rest.contains(t) {
            assert forall|i: int, j: int|
                0 <= i < rest.push(t).len() && 0 <= j < rest.push(t).len() && i != j implies
                rest.push(t)[i] != rest.push(t)[j] by {
                if i == rest.len() {
                    assert(rest[j] == rest.push(t)[j]);
                } else if j == rest.len() {
                    assert(rest[i] == rest.push(t)[i]);
                }
            }
        }
    }
}

/// The command whitelist of the running agent: every entry trimmed, empty
/// entries dropped, each command kept once, in the order of first occurrence.
pub fn normalize_whitelist(list: Vec<String>) -> (r: Vec<String>)
    ensures
        strings_view(r@) == distinct_trimmed(strings_view(list@)),
        strings_view(r@).no_duplicates(),
        forall|t: Seq<char>| #[trigger] strings_view(r@).contains(t) <==> whitelist_entry(
            strings_view(list@),
            t,
        ),
{
    let mut out: Vec<String> = Vec::new();
    let mut i: usize = 0;
    while i < list.len()
        invariant
            i <= list.len(),
            strings_view(out@) == distinct_trimmed(strings_view(list@).take(i as int)),
        decreases list.len() - i,
    {
        let t = trim_string(list[i].as_str());
        let ghost lv = strings_view(list@);
        proof {
            assert(lv.take(i + 1).drop_last() =~= lv.take(i as int));
            assert(lv.take(i + 1).last() == list@[i as int]@);
        }
        if !t.as_str().is_empty() && !contains_string(&out, &t) {
            out.push(t);
            proof {
                assert(strings_view(out@) =~= strings_view(out@.drop_last()).push(t@));
            }
        }
        i = i + 1;
    }
    proof {
        assert(strings_view(list@).take(list.len() as int) =~= strings_view(list@));
        lemma_distinct_trimmed(strings_view(list@));
    }
    out
}

/// Every entry of `list` with the home directory expanded.
pub open spec fn expand_home_all(list: Seq<Seq<char>>, home: Option<Seq<char>>) -> Seq<Seq<char>> {
    list.map_values(|p: Seq<char>| expand_home_spec(p, home))
}

/// Expands the home directory in every entry of `list`.
pub fn expand_home_list(list: &Vec<String>, home: Option<&str>) -> (r: Vec<String>)
    ensures
        strings_view(r@) == expand_home_all(strings_view(list@), opt_str_ref(home)),
{
    let mut out: Vec<String> = Vec::new();
    let mut i: usize = 0;
    while i < list.len()
        invariant
            i <= list.len(),
            strings_view(out@) == expand_home_all(strings_view(list@).take(i as int), opt_str_ref(home)),
        decreases list.len() - i,
    {
        let e = expand_home(list[i].as_str(), home);
        let ghost before = out@;
        proof {
            assert(strings_view(before).len() == i);
        }
        out.push(e);
        proof {
            let target = expand_home_all(strings_view(list@).take(i + 1), opt_str_ref(home));
            let prev = expand_home_all(strings_view(list@).take(i as int), opt_str_ref(home));
            assert(out@.len() == i + 1);
            assert forall|k: int| 0 <= k < i + 1 implies strings_view(out@)[k] == target[k] by {
                if k < i {
                    assert(out@[k] == before[k]);
                    assert(strings_view(before)[k] == prev[k]);
                }
            }
            assert(strings_view(out@) =~= target);
        }
        i = i + 1;
    }
    proof {
        assert(strings_view(list@).take(list.len() as int) =~= strings_view(list@));
    }
    out
}

/// The settings the agent runs with, resolved from the merged layer. The
/// server address is kept as text; it is checked where it is parsed.
#[derive(Debug, PartialEq, Eq)]
pub struct Config {
    pub server_addr: String,
    pub server_name: String,
    pub ca_cert_path: String,
    pub agent_id: String,
    pub token: Option<String>,
    pub heartbeat_secs: u64,
    pub reconnect_max_secs: u64,
    /// The allowed commands, each once.
    pub whitelist: Vec<String>,
    /// The allowed path roots, with the home directory expanded.
    pub path_whitelist: Vec<String>,
}

/// The value of an optional field, or `default` where it is unset.
pub open spec fn or_default<T>(o: Option<T>, default: T) -> T {
    match o {
        Some(v) => v,
        None => default,
    }
}

/// The larger of two numbers.
pub open spec fn at_least(v: u64, floor: u64) -> u64 {
    if v < floor {
        floor
    } else {
        v
    }
}

/// How many times `c` occurs in `s`.
pub open spec fn count_char(s: Seq<char>, c: char) -> nat
    decreases s.len(),
{
    if s.len() == 0 {
        0
    } else {
        count_char(s.drop_last(), c) + if s.last() == c {
            1nat
        } else {
            0nat
        }
    }
}

/// Whether `h` is an IPv6 address in brackets, such as `[::1]`.
pub open spec fn is_bracketed(h: Seq<char>) -> bool {
    h.len() >= 2 && h[0] == '[' && h.last() == ']'
}

/// The address `h` with the port `p`: `h:p` for a host or a bracketed IPv6
/// address, `[h]:p` for a bare IPv6 address; an `h` that already holds a
/// port of its own (`host:port`, `[v6]:port`) is kept as it is.
pub open spec fn with_port(h: Seq<char>, p: u16) -> Seq<char> {
    if count_char(h, ':') == 0 || is_bracketed(h) {
        h + ":"@ + decimal(p as nat)
    } else if count_char(h, ':') >= 2 && !(h.len() > 0 && h[0] == '[') {
        "["@ + h + "]:"@ + decimal(p as nat)
    } else {
        h
    }
}

/// The server address of the merged layer: its `server_addr` with its
/// `server_port`, each defaulting to `127.0.0.1` and 4433.
pub open spec fn server_addr_spec(m: FileConfigView) -> Seq<char> {
    match m.server_port {
        Some(p) => with_port(or_default(m.server_addr, "127.0.0.1"@), p),
        None => or_default(m.server_addr, "127.0.0.1:4433"@),
    }
}

/// The token of the merged layer; an empty token counts as none.
pub open spec fn token_spec(m: FileConfigView) -> Option<Seq<char>> {
    match m.token {
        Some(t) => if t.len() > 0 {
            Some(t)
        } else {
            None
        },
        None => None,
    }
}

/// The command whitelist that a merged layer resolves to.
pub open spec fn whitelist_spec(m: FileConfigView) -> Seq<Seq<char>> {
    distinct_trimmed(or_default(m.command_whitelist, Seq::empty()))
}

/// What the running settings are, for a merged layer that resolves.
pub open spec fn resolved(
    c: Config,
    m: FileConfigView,
    home: Option<Seq<char>>,
) -> bool {
    &&& c.server_addr@ == server_addr_spec(m)
    &&& c.server_name@ == or_default(m.server_name, "localhost"@)
    &&& c.ca_cert_path@ == or_default(m.ca_cert_path, "ca.pem"@)
    &&& c.agent_id@ == or_default(m.agent_id, default_agent_id())
    &&& opt_str(c.token) == token_spec(m)
    &&& c.heartbeat_secs == at_least(or_default(m.heartbeat_secs, default_heartbeat_secs()), 3)
    &&& c.reconnect_max_secs == at_least(
        or_default(m.reconnect_max_secs, default_reconnect_secs()),
        1,
    )
    &&& strings_view(c.whitelist@) == whitelist_spec(m)
    &&& strings_view(c.path_whitelist@) == expand_home_all(
        or_default(m.file_path_whitelist, Seq::empty()),
        home,
    )
}

/// Resolved settings keep the heartbeat at three seconds or more and the
/// reconnection cap at one second or more, whatever the layers say.
pub proof fn lemma_resolved_floors(
    c: Config,
    m: FileConfigView,
    home: Option<Seq<char>>,
)
    requires
        resolved(c, m, home),
    ensures
        c.heartbeat_secs >= 3,
        c.reconnect_max_secs >= 1,
        c.token matches Some(t) ==> t@.len() > 0,
        strings_view(c.whitelist@).no_duplicates(),
{
    lemma_distinct_trimmed(or_default(m.command_whitelist, Seq::empty()));
}

fn or_default_string(o: Option<String>, default: &str) -> (r: String)
    ensures
        r@ == or_default(opt_str(o), default@),
{
    match o {
        Some(s) => s,
        None => String::from_str(default),
    }
}

fn count_colons(v: &Vec<char>) -> (n: usize)
    ensures
        n == count_char(v@, ':'),
{
    let mut n: usize = 0;
    let mut i: usize = 0;
    while i < v.len()
        invariant
            i <= v.len(),
            n == count_char(v@.take(i as int), ':'),
            n <= i,
        decreases v.len() - i,
    {
        proof {
            assert(v@.take(i + 1).drop_last() =~= v@.take(i as int));
        }
        if v[i] == ':' {
            n = n + 1;
        }
        i = i + 1;
    }
    proof {
        assert(v@.take(v.len() as int) =~= v@);
    }
    n
}

/// The address `host` with the port `port` (see [`with_port`]).
pub fn address_with_port(host: &str, port: u16) -> (r: String)
    ensures
        r@ == with_port(host@, port),
{
    let v = chars_of(host);
    let colons = count_colons(&v);
    let digits = decimal_string(port as u64);
    let bracketed = v.len() >= 2 && v[0] == '[' && v[v.len() - 1] == ']';
    if colons == 0 || bracketed {
        let mut r = concat_str(host, ":");
        r.append(digits.as_str());
        r
    } else if colons >= 2 && !(v.len() > 0 && v[0] == '[') {
        let mut r = concat_str("[", host);
        r.append("]:");
        r.append(digits.as_str());
        r
    } else {
        String::from_str(host)
    }
}

/// The server address that the merged layer names (see [`server_addr_spec`]).
pub fn resolved_server_addr(merged: &FileConfig) -> (r: String)
    ensures
        r@ == server_addr_spec(merged@),
{
    match merged.server_port {
        Some(p) => {
            let host = or_default_string(clone_opt(&merged.server_addr), "127.0.0.1");
            address_with_port(host.as_str(), p)
        },
        None => or_default_string(clone_opt(&merged.server_addr), "127.0.0.1:4433"),
    }
}

impl Config {
    /// Resolves the merged layer into running settings. `home` is the home
    /// directory, where known. Fails exactly when the whitelist holds no
    /// command.
    pub fn resolve(merged: FileConfig, home: Option<&str>) -> (r: Result<
        Config,
        ConfigError,
    >)
        ensures
            r is Err <==> whitelist_spec(merged@).len() == 0,
            r matches Err(e) ==> e == ConfigError::EmptyWhitelist,
            r matches Ok(c) ==> resolved(c, merged@, opt_str_ref(home)),
    {
        let ghost m = merged@;
        let server_addr = resolved_server_addr(&merged);
        let server_name = or_default_string(merged.server_name, "localhost");
        let ca_cert_path = or_default_string(merged.ca_cert_path, "ca.pem");
        let agent_id = match merged.agent_id {
            Some(a) => a,
            None => String::from_str("mac-agent-001"),
        };
        let token = match merged.token {
            Some(t) => if t.as_str().is_empty() {
                None
            } else {
                Some(t)
            },
            None => None,
        };
        let heartbeat = match merged.heartbeat_secs {
            Some(v) => v,
            None => 30,
        };
        let heartbeat_secs = if heartbeat < 3 {
            3
        } else {
            heartbeat
        };
        let reconnect = match merged.reconnect_max_secs {
            Some(v) => v,
            None => 5,
        };
        let reconnect_max_secs = if reconnect < 1 {
            1
        } else {
            reconnect
        };
        let commands = match merged.command_whitelist {
            Some(l) => l,
            None => Vec::new(),
        };
        assert(strings_view(commands@) == or_default(m.command_whitelist, Seq::empty()));
        let whitelist = normalize_whitelist(commands);
        if whitelist.len() == 0 {
            return Err(ConfigError::EmptyWhitelist);
        }
        let paths = match merged.file_path_whitelist {
            Some(l) => l,
            None => Vec::new(),
        };
        assert(strings_view(paths@) =~= or_default(m.file_path_whitelist, Seq::empty()));
        let path_whitelist = expand_home_list(&paths, home);
        Ok(
            Config {
                server_addr,
                server_name,
                ca_cert_path,
                agent_id,
                token,
                heartbeat_secs,
                reconnect_max_secs,
                whitelist,
                path_whitelist,
            },
        )
    }
}

} // verus!
