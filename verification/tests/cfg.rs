use asfa::cfg::{check_prefix_length, Config};
use asfa::errors::StoreError;
use asfa::util::{yaml_string, YamlValue};

fn entry(key: &str, value: YamlValue) -> (String, YamlValue) {
    (key.to_string(), value)
}

/// The example configuration: two hosts, a default host, and a hostname
/// override on the second host.
fn example_config() -> YamlValue {
    let host1 = YamlValue::Dict(vec![
        entry("url", yaml_string("https://example.com/asfa")),
        entry("folder", yaml_string("/var/www/default/asfa")),
    ]);
    let host2 = YamlValue::Dict(vec![
        entry("url", yaml_string("https://my-hostname-2.eu/asfa")),
        entry("folder", yaml_string("/var/www/default/asfa")),
        entry("hostname", yaml_string("my-hostname-2.eu")),
    ]);
    YamlValue::Dict(vec![
        entry("default_host", yaml_string("my-remote-site")),
        entry(
            "hosts",
            YamlValue::Dict(vec![
                entry("my-remote-site", host1),
                entry("my-remote-site-2", host2),
            ]),
        ),
    ])
}

#[test]
fn load_example_config() {
    let cfg = Config::from_yaml(&example_config()).unwrap();
    assert_eq!(&cfg.hosts.len(), &2);
    assert_eq!(&cfg.default_host.clone().unwrap(), &"my-remote-site");
    assert_eq!(
        &cfg.get_host(Some("my-remote-site-2")).unwrap().hostname,
        &Some("my-hostname-2.eu".to_string())
    );
}

#[test]
fn hosts_inherit_global_settings() {
    let doc = YamlValue::Dict(vec![
        entry("prefix_length", YamlValue::Int(16)),
        entry("verify_via_hash", YamlValue::Bool(false)),
        entry(
            "auth",
            YamlValue::Dict(vec![entry("use_agent", YamlValue::Bool(false))]),
        ),
        entry(
            "hosts",
            YamlValue::Dict(vec![
                entry(
                    "plain",
                    YamlValue::Dict(vec![
                        entry("url", yaml_string("https://a.example")),
                        entry("folder", yaml_string("/srv/store")),
                    ]),
                ),
                entry(
                    "special",
                    YamlValue::Dict(vec![
                        entry("url", yaml_string("https://b.example")),
                        entry("folder", yaml_string("/srv/store")),
                        entry("prefix_length", YamlValue::Int(64)),
                    ]),
                ),
            ]),
        ),
    ]);
    let cfg = Config::from_yaml(&doc).unwrap();
    assert_eq!(cfg.prefix_length, 16);
    assert!(!cfg.verify_via_hash);
    assert!(!cfg.auth.use_agent);
    assert!(cfg.auth.interactive);
    assert_eq!(cfg.hosts[0].prefix_length, 16);
    assert!(!cfg.hosts[0].auth.use_agent);
    assert_eq!(cfg.hosts[1].prefix_length, 64);
}

#[test]
fn prefix_length_range_is_checked() {
    assert!(check_prefix_length(8).is_ok());
    assert!(check_prefix_length(64).is_ok());
    assert!(matches!(
        check_prefix_length(7),
        Err(StoreError::InvalidPrefixLength { length: 7 })
    ));
    assert!(matches!(
        check_prefix_length(65),
        Err(StoreError::InvalidPrefixLength { length: 65 })
    ));
    let doc = YamlValue::Dict(vec![entry("prefix_length", YamlValue::Int(65))]);
    assert!(matches!(
        Config::from_yaml(&doc),
        Err(StoreError::InvalidPrefixLength { length: 65 })
    ));
}

#[test]
fn config_root_and_hosts_must_be_dictionaries() {
    assert!(matches!(
        Config::from_yaml(&yaml_string("nope")),
        Err(StoreError::InvalidConfigRoot)
    ));
    let doc = YamlValue::Dict(vec![entry("hosts", yaml_string("nope"))]);
    assert!(matches!(
        Config::from_yaml(&doc),
        Err(StoreError::InvalidHostsTable)
    ));
    let doc = YamlValue::Dict(vec![entry(
        "hosts",
        YamlValue::Dict(vec![entry("h", yaml_string("no-dict"))]),
    )]);
    assert!(matches!(
        Config::from_yaml(&doc),
        Err(StoreError::InvalidHostEntry { .. })
    ));
}

#[test]
fn missing_required_host_keys_are_reported() {
    let doc = YamlValue::Dict(vec![entry(
        "hosts",
        YamlValue::Dict(vec![entry(
            "h",
            YamlValue::Dict(vec![entry("url", yaml_string("https://x"))]),
        )]),
    )]);
    match Config::from_yaml(&doc) {
        Err(StoreError::MissingRequiredKey { key }) => assert_eq!(key, "folder"),
        other => panic!("unexpected: {:?}", other.is_ok()),
    }
}

#[test]
fn get_host_picks_named_default_or_single() {
    let doc = example_config();
    let cfg = Config::from_yaml(&doc).unwrap();
    assert_eq!(cfg.get_host(None).unwrap().alias, "my-remote-site");
    assert_eq!(
        cfg.get_host(Some("my-remote-site-2")).unwrap().alias,
        "my-remote-site-2"
    );
    assert!(matches!(
        cfg.get_host(Some("unknown")),
        Err(StoreError::UnknownHost { .. })
    ));

    let empty = Config::from_yaml(&YamlValue::Dict(vec![])).unwrap();
    assert!(matches!(
        empty.get_host(None),
        Err(StoreError::NoHostConfigured)
    ));
}

#[test]
fn get_url_percent_encodes() {
    let doc = YamlValue::Dict(vec![entry(
        "hosts",
        YamlValue::Dict(vec![entry(
            "h",
            YamlValue::Dict(vec![
                entry("url", yaml_string("https://x.example/asfa")),
                entry("folder", yaml_string("/srv/store")),
            ]),
        )]),
    )]);
    let cfg = Config::from_yaml(&doc).unwrap();
    let host = cfg.get_host(Some("h")).unwrap();
    let url = host.get_url("ab/my file\"1\".txt").unwrap();
    assert_eq!(url, "https://x.example/asfa/ab/my%20file%221%22.txt");
}

#[test]
fn hostname_default_chain() {
    let doc = example_config();
    let cfg = Config::from_yaml(&doc).unwrap();
    let h1 = cfg.get_host(Some("my-remote-site")).unwrap();
    assert_eq!(h1.get_hostname_def(None), "my-remote-site");
    assert_eq!(
        h1.get_hostname_def(Some("fallback.example".to_string())),
        "fallback.example"
    );
    let h2 = cfg.get_host(Some("my-remote-site-2")).unwrap();
    assert_eq!(h2.get_hostname_def(None), "my-hostname-2.eu");
}
