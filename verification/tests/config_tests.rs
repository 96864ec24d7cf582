use openclaw_agent::config::{
    apply_env_overrides, config_file_path, expand_home, join_path, layered, merge,
    remote_config_url, resolved_server_addr, Config, ConfigError, EnvOverrides, FileConfig,
};

fn s(v: &str) -> String {
    v.to_string()
}

fn strings(v: &[&str]) -> Vec<String> {
    v.iter().map(|x| x.to_string()).collect()
}

fn empty_layer() -> FileConfig {
    FileConfig {
        server_addr: None,
        server_port: None,
        server_name: None,
        ca_cert_path: None,
        agent_id: None,
        token: None,
        heartbeat_secs: None,
        reconnect_max_secs: None,
        command_whitelist: None,
        file_path_whitelist: None,
        config_url: None,
    }
}

fn no_env() -> EnvOverrides {
    EnvOverrides {
        server_addr: None,
        server_name: None,
        ca_cert_path: None,
        agent_id: None,
        token: None,
        heartbeat_secs: None,
        reconnect_max_secs: None,
        whitelist: None,
        path_whitelist: None,
    }
}

#[test]
fn defaults_hold_the_documented_values() {
    let d = FileConfig::defaults();
    assert_eq!(d.server_addr, Some(s("127.0.0.1")));
    assert_eq!(d.server_port, Some(4433));
    assert_eq!(d.server_name, Some(s("localhost")));
    assert_eq!(d.ca_cert_path, Some(s("ca.pem")));
    assert_eq!(d.agent_id, Some(s("mac-agent-001")));
    assert_eq!(d.token, Some(s("default-token")));
    assert_eq!(d.heartbeat_secs, Some(30));
    assert_eq!(d.reconnect_max_secs, Some(5));
    assert_eq!(d.command_whitelist, Some(strings(&["ls", "pwd", "echo", "date", "whoami"])));
    assert_eq!(d.file_path_whitelist, Some(strings(&["$HOME", "/tmp"])));
    assert_eq!(d.config_url, None);
    assert_eq!(resolved_server_addr(&d), "127.0.0.1:4433");
}

#[test]
fn merge_takes_fields_set_in_the_upper_layer() {
    let mut upper = empty_layer();
    upper.server_addr = Some(s("10.0.0.1:9000"));
    upper.heartbeat_secs = Some(5);
    upper.command_whitelist = Some(vec![]);
    let m = merge(FileConfig::defaults(), upper);
    assert_eq!(m.server_addr, Some(s("10.0.0.1:9000")));
    assert_eq!(m.heartbeat_secs, Some(5));
    assert_eq!(m.command_whitelist, Some(vec![]));
    assert_eq!(m.server_name, Some(s("localhost")));
    assert_eq!(m.reconnect_max_secs, Some(5));
}

#[test]
fn merge_with_empty_layer_changes_nothing() {
    assert_eq!(merge(FileConfig::defaults(), empty_layer()), FileConfig::defaults());
    assert_eq!(merge(empty_layer(), FileConfig::defaults()), FileConfig::defaults());
    assert_eq!(
        merge(FileConfig::defaults(), FileConfig::defaults()),
        FileConfig::defaults()
    );
}

#[test]
fn merge_is_associative_on_an_example() {
    let mk = |addr: Option<&str>, hb: Option<u64>, url: Option<&str>| {
        let mut l = empty_layer();
        l.server_addr = addr.map(s);
        l.heartbeat_secs = hb;
        l.config_url = url.map(s);
        l
    };
    let left = merge(merge(mk(Some("a"), None, None), mk(None, Some(4), None)), mk(Some("c"), None, Some("u")));
    let right = merge(mk(Some("a"), None, None), merge(mk(None, Some(4), None), mk(Some("c"), None, Some("u"))));
    assert_eq!(left, right);
    assert_eq!(left.server_addr, Some(s("c")));
    assert_eq!(left.heartbeat_secs, Some(4));
}

#[test]
fn env_overrides_replace_set_fields() {
    let mut cfg = FileConfig::defaults();
    let mut env = no_env();
    env.server_addr = Some(s("1.2.3.4:1"));
    env.token = Some(s(""));
    env.heartbeat_secs = Some(s("45"));
    env.reconnect_max_secs = Some(s("oops"));
    env.whitelist = Some(s(" git , make ,"));
    env.path_whitelist = Some(s(""));
    apply_env_overrides(&mut cfg, &env);
    assert_eq!(cfg.server_addr, Some(s("1.2.3.4:1")));
    assert_eq!(cfg.token, Some(s("")));
    assert_eq!(cfg.heartbeat_secs, Some(45));
    assert_eq!(cfg.reconnect_max_secs, Some(5));
    assert_eq!(cfg.command_whitelist, Some(strings(&["git", "make"])));
    assert_eq!(cfg.file_path_whitelist, Some(vec![]));
}

#[test]
fn empty_env_whitelist_keeps_the_configured_one() {
    let mut cfg = FileConfig::defaults();
    let mut env = no_env();
    env.whitelist = Some(s(" , "));
    apply_env_overrides(&mut cfg, &env);
    assert_eq!(cfg.command_whitelist, FileConfig::defaults().command_whitelist);
}

#[test]
fn no_env_changes_nothing() {
    let mut cfg = FileConfig::defaults();
    apply_env_overrides(&mut cfg, &no_env());
    assert_eq!(cfg, FileConfig::defaults());
}

#[test]
fn remote_url_prefers_non_empty_env() {
    let mut f = empty_layer();
    f.config_url = Some(s("http://cfg"));
    assert_eq!(remote_config_url(Some(s("http://env")), Some(&f)), Some(s("http://env")));
    assert_eq!(remote_config_url(Some(s("")), Some(&f)), Some(s("http://cfg")));
    assert_eq!(remote_config_url(None, Some(&f)), Some(s("http://cfg")));
    assert_eq!(remote_config_url(None, Some(&empty_layer())), None);
    assert_eq!(remote_config_url(None, None), None);
}

#[test]
fn join_follows_pathbuf_join() {
    for (b, p) in [
        ("/home/u", "x"),
        ("/home/u/", "x"),
        ("/home/u", "/etc"),
        ("", "x"),
        ("/home/u", ""),
        ("a", "b/c"),
    ] {
        let expected = std::path::Path::new(b).join(p);
        assert_eq!(join_path(b, p), expected.to_str().unwrap(), "{:?} {:?}", b, p);
    }
}

#[test]
fn expand_home_replaces_leading_home() {
    let h = Some("/home/u");
    assert_eq!(expand_home("$HOME", h), "/home/u");
    assert_eq!(expand_home("$HOME/src", h), "/home/u/src");
    assert_eq!(expand_home("~", h), "/home/u");
    assert_eq!(expand_home("~/src", h), "/home/u/src");
    assert_eq!(expand_home("~user", h), "~user");
    assert_eq!(expand_home("/tmp", h), "/tmp");
    assert_eq!(expand_home("$HOME/src", None), "$HOME/src");
    assert_eq!(expand_home("~", None), "~");
}

#[test]
fn config_file_path_order() {
    assert_eq!(
        config_file_path(Some("~/c.json"), Some("/d"), Some("/home/u")),
        Ok(s("/home/u/c.json"))
    );
    assert_eq!(config_file_path(None, Some("/d"), Some("/home/u")), Ok(s("/d/config.json")));
    assert_eq!(
        config_file_path(None, None, Some("/home/u")),
        Ok(s("/home/u/.openclaw-agent/config.json"))
    );
    assert_eq!(config_file_path(None, None, None), Err(ConfigError::HomeNotSet));
    assert_eq!(ConfigError::HomeNotSet.message(), "HOME not set");
}

#[test]
fn resolve_applies_defaults_and_floors() {
    let c = Config::resolve(FileConfig::defaults(), Some("/home/u")).unwrap();
    assert_eq!(c.server_addr, "127.0.0.1:4433");
    assert_eq!(c.agent_id, "mac-agent-001");
    assert_eq!(c.token, Some(s("default-token")));
    assert_eq!(c.heartbeat_secs, 30);
    assert_eq!(c.reconnect_max_secs, 5);
    assert_eq!(c.whitelist, strings(&["ls", "pwd", "echo", "date", "whoami"]));
    assert_eq!(c.path_whitelist, strings(&["/home/u", "/tmp"]));

    let mut l = empty_layer();
    l.heartbeat_secs = Some(1);
    l.reconnect_max_secs = Some(0);
    l.token = Some(s(""));
    l.command_whitelist = Some(strings(&[" ls ", "ls", "", "pwd", "  "]));
    let c = Config::resolve(l, None).unwrap();
    assert_eq!(c.server_addr, "127.0.0.1:4433");
    assert_eq!(c.server_name, "localhost");
    assert_eq!(c.ca_cert_path, "ca.pem");
    assert_eq!(c.agent_id, "mac-agent-001");
    assert_eq!(c.token, None);
    assert_eq!(c.heartbeat_secs, 3);
    assert_eq!(c.reconnect_max_secs, 1);
    assert_eq!(c.whitelist, strings(&["ls", "pwd"]));
    assert_eq!(c.path_whitelist, Vec::<String>::new());
}

#[test]
fn resolve_refuses_empty_whitelist() {
    let mut l = FileConfig::defaults();
    l.command_whitelist = Some(strings(&[" ", ""]));
    let e = Config::resolve(l, None).unwrap_err();
    assert_eq!(e, ConfigError::EmptyWhitelist);
    assert_eq!(e.message(), "command whitelist cannot be empty");
    assert_eq!(Config::resolve(empty_layer(), None), Err(ConfigError::EmptyWhitelist));
}

#[test]
fn server_addr_defaults_when_unset() {
    assert_eq!(resolved_server_addr(&empty_layer()), "127.0.0.1:4433");
    let mut l = empty_layer();
    l.server_addr = Some(s("[::1]:1"));
    assert_eq!(resolved_server_addr(&l), "[::1]:1");
}

#[test]
fn server_port_joins_the_host() {
    let mut l = empty_layer();
    l.server_port = Some(4433);
    assert_eq!(resolved_server_addr(&l), "127.0.0.1:4433");
    l.server_addr = Some(s("10.0.0.2"));
    assert_eq!(resolved_server_addr(&l), "10.0.0.2:4433");
    l.server_addr = Some(s("10.0.0.2:9000"));
    assert_eq!(resolved_server_addr(&l), "10.0.0.2:9000");
    l.server_addr = Some(s("::1"));
    assert_eq!(resolved_server_addr(&l), "[::1]:4433");
    l.server_addr = Some(s("[::1]"));
    assert_eq!(resolved_server_addr(&l), "[::1]:4433");
    l.server_addr = Some(s("[::1]:80"));
    assert_eq!(resolved_server_addr(&l), "[::1]:80");
}

#[test]
fn documented_file_resolves_to_documented_settings() {
    // The layer that the documented configuration file yields.
    let mut file = empty_layer();
    file.server_addr = Some(s("127.0.0.1"));
    file.server_port = Some(4433);
    file.agent_id = Some(s("mac-agent-001"));
    file.token = Some(s("default-token"));
    file.reconnect_max_secs = Some(5);
    file.heartbeat_secs = Some(30);
    file.command_whitelist = Some(strings(&["ls", "pwd", "echo", "date", "whoami"]));
    let merged = layered(Some(file), None, &no_env());
    assert_eq!(resolved_server_addr(&merged), "127.0.0.1:4433");
    let c = Config::resolve(merged, Some("/Users/a")).unwrap();
    assert_eq!(c.server_addr, "127.0.0.1:4433");
    assert_eq!(c.agent_id, "mac-agent-001");
    assert_eq!(c.token, Some(s("default-token")));
    assert_eq!(c.heartbeat_secs, 30);
    assert_eq!(c.whitelist, strings(&["ls", "pwd", "echo", "date", "whoami"]));
}

#[test]
fn layers_apply_in_order() {
    let mut file = empty_layer();
    file.heartbeat_secs = Some(10);
    file.token = Some(s("f"));
    let mut remote = empty_layer();
    remote.heartbeat_secs = Some(11);
    let mut env = no_env();
    env.token = Some(s("e"));
    let m = layered(Some(file), Some(remote), &env);
    assert_eq!(m.heartbeat_secs, Some(11));
    assert_eq!(m.token, Some(s("e")));
    assert_eq!(m.agent_id, Some(s("mac-agent-001")));
    assert_eq!(layered(None, None, &no_env()), FileConfig::defaults());
}
