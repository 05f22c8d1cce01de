//! The configuration: global settings, authentication defaults and the
//! host table, read from an already-parsed configuration tree.  Reading
//! the files and expanding `~` in paths happen outside; every rule that
//! interprets the tree is verified here.

use vstd::prelude::*;
use vstd::string::StringExecFns;
use crate::errors::StoreError;
use crate::util::{
    YamlValue, get_bool_from, get_dict_from, get_int_from, get_required_string, get_string_from,
    yaml_lookup,
};

verus! {

/// The main configuration.
pub struct Config {
    /// Authentication settings used where a host has none of its own.
    pub auth: Auth,
    /// The host to pick when none is named.
    pub default_host: Option<String>,
    /// All configured hosts, in configuration order.
    pub hosts: Vec<Host>,
    /// Hash prefix length used unless a host overrides it.
    pub prefix_length: u8,
    /// Whether to re-hash remotely after an upload.
    pub verify_via_hash: bool,
}

/// Authentication configuration.
pub struct Auth {
    /// Take authentication hints for the host from the openssh setup.
    pub from_openssh: bool,
    /// Ask interactively where passwords are needed.
    pub interactive: bool,
    /// An explicit private key file.
    pub private_key_file: Option<String>,
    /// An explicit password for that key file.
    pub private_key_file_password: Option<String>,
    /// Try agent authentication.
    pub use_agent: bool,
}

/// One host entry.
pub struct Host {
    /// The alias the host is known under.
    pub alias: String,
    /// Authentication settings for this host.
    pub auth: Auth,
    /// The folder the store lives in on the host, as configured.
    pub folder: String,
    /// A group remote files may need for the web server to read them.
    pub group: Option<String>,
    /// The host name, where it differs from the alias.
    pub hostname: Option<String>,
    /// A plain-text password (not recommended).
    pub password: Option<String>,
    /// Hash prefix length for this host.
    pub prefix_length: u8,
    /// The public URL files are served under.
    pub url: String,
    /// The user to sign in as.
    pub user: Option<String>,
}

impl Clone for Auth {
    fn clone(&self) -> (r: Self)
        ensures
            r == *self,
    {
        Auth {
            from_openssh: self.from_openssh,
            interactive: self.interactive,
            private_key_file: clone_opt_string(&self.private_key_file),
            private_key_file_password: clone_opt_string(&self.private_key_file_password),
            use_agent: self.use_agent,
        }
    }
}

/// Copy an optional string.
fn clone_opt_string(s: &Option<String>) -> (r: Option<String>)
    ensures
        r == *s,
{
    match s {
        Some(v) => Some(v.clone()),
        None => None,
    }
}

/// The authentication defaults: agent, openssh hints and interactive
/// prompts on, no explicit key.
pub open spec fn auth_default() -> Auth {
    Auth {
        from_openssh: true,
        interactive: true,
        private_key_file: None,
        private_key_file_password: None,
        use_agent: true,
    }
}

impl Default for Auth {
    fn default() -> (r: Self)
        ensures
            r == auth_default(),
    {
        Auth {
            from_openssh: true,
            interactive: true,
            private_key_file: None,
            private_key_file_password: None,
            use_agent: true,
        }
    }
}

/// The configuration defaults: no hosts, prefix length 32, uploads
/// verified.
pub open spec fn config_default(c: Config) -> bool {
    &&& c.auth == auth_default()
    &&& c.default_host is None
    &&& c.hosts@ == Seq::<Host>::empty()
    &&& c.prefix_length == 32
    &&& c.verify_via_hash == true
}

impl Default for Config {
    fn default() -> (r: Self)
        ensures
            config_default(r),
    {
        let r = Config {
            auth: Auth::default(),
            default_host: None,
            hosts: Vec::new(),
            prefix_length: 32,
            verify_via_hash: true,
        };
        proof {
            assert(r.hosts@ =~= Seq::<Host>::empty());
        }
        r
    }
}

/// Whether a configured hash prefix length is accepted: 8 to 64
/// characters, so that it both truncates a digest and can be re-derived.
pub fn check_prefix_length(length: i64) -> (r: Result<(), StoreError>)
    ensures
        r is Ok <==> 8 <= length <= 64,
        r is Err ==> (r->Err_0 matches StoreError::InvalidPrefixLength { length: l } && l
            == length),
{
    if length < 8 || 64 < length {
        Err(StoreError::InvalidPrefixLength { length })
    } else {
        Ok(())
    }
}

/// Whether a key, if present, holds a boolean.
pub open spec fn bool_key_ok(d: Seq<(String, YamlValue)>, name: Seq<char>) -> bool {
    match yaml_lookup(d, name) {
        None => true,
        Some(v) => v is Bool,
    }
}

/// The boolean under a key, or the fallback where the key is absent.
pub open spec fn bool_or(d: Seq<(String, YamlValue)>, name: Seq<char>, fallback: bool) -> bool {
    match yaml_lookup(d, name) {
        Some(YamlValue::Bool(b)) => b,
        _ => fallback,
    }
}

/// Whether a key, if present, holds a string.
pub open spec fn str_key_ok(d: Seq<(String, YamlValue)>, name: Seq<char>) -> bool {
    match yaml_lookup(d, name) {
        None => true,
        Some(v) => v is Str,
    }
}

/// The string under a key, where there is one.
pub open spec fn str_opt(d: Seq<(String, YamlValue)>, name: Seq<char>) -> Option<String> {
    match yaml_lookup(d, name) {
        Some(YamlValue::Str(s)) => Some(s),
        _ => None,
    }
}

/// The string under a key, or the fallback where the key is absent.
pub open spec fn str_or(
    d: Seq<(String, YamlValue)>,
    name: Seq<char>,
    fallback: Option<String>,
) -> Option<String> {
    match str_opt(d, name) {
        Some(s) => Some(s),
        None => fallback,
    }
}

/// Whether an authentication dictionary is well-typed: every present key
/// holds a value of its kind.
pub open spec fn auth_keys_ok(d: Seq<(String, YamlValue)>) -> bool {
    &&& bool_key_ok(d, "use_agent"@)
    &&& bool_key_ok(d, "interactive"@)
    &&& str_key_ok(d, "private_key_file"@)
    &&& str_key_ok(d, "private_key_file_password"@)
    &&& bool_key_ok(d, "from_openssh"@)
}

/// What an authentication dictionary yields over the given defaults.
pub open spec fn auth_parsed(d: Seq<(String, YamlValue)>, fallback: Auth) -> Auth {
    Auth {
        from_openssh: bool_or(d, "from_openssh"@, fallback.from_openssh),
        interactive: bool_or(d, "interactive"@, fallback.interactive),
        private_key_file: str_or(d, "private_key_file"@, fallback.private_key_file),
        private_key_file_password: str_or(
            d,
            "private_key_file_password"@,
            fallback.private_key_file_password,
        ),
        use_agent: bool_or(d, "use_agent"@, fallback.use_agent),
    }
}

impl Auth {
    /// Read authentication settings, falling back to the given defaults
    /// (or the built-in ones) key by key.
    pub fn from_yaml(dict: &Vec<(String, YamlValue)>, fallback: Option<&Auth>) -> (r: Result<
        Auth,
        crate::util::InvalidYamlTypeError,
    >)
        ensures
            r is Ok <==> auth_keys_ok(dict@),
            r is Ok ==> r->Ok_0 == auth_parsed(
                dict@,
                match fallback {
                    Some(f) => *f,
                    None => auth_default(),
                },
            ),
            r is Err ==> !auth_keys_ok(dict@),
    {
        let base = Auth::default();
        let fb: &Auth = match fallback {
            Some(f) => f,
            None => &base,
        };
        let use_agent = match get_bool_from(dict, "use_agent") {
            Err(e) => {
                return Err(e);
            },
            Ok(Some(b)) => *b,
            Ok(None) => fb.use_agent,
        };
        let interactive = match get_bool_from(dict, "interactive") {
            Err(e) => {
                return Err(e);
            },
            Ok(Some(b)) => *b,
            Ok(None) => fb.interactive,
        };
        let private_key_file = match get_string_from(dict, "private_key_file") {
            Err(e) => {
                return Err(e);
            },
            Ok(Some(s)) => Some(s.clone()),
            Ok(None) => clone_opt_string(&fb.private_key_file),
        };
        let private_key_file_password = match get_string_from(dict, "private_key_file_password") {
            Err(e) => {
                return Err(e);
            },
            Ok(Some(s)) => Some(s.clone()),
            Ok(None) => clone_opt_string(&fb.private_key_file_password),
        };
        let from_openssh = match get_bool_from(dict, "from_openssh") {
            Err(e) => {
                return Err(e);
            },
            Ok(Some(b)) => *b,
            Ok(None) => fb.from_openssh,
        };
        Ok(
            Auth {
                from_openssh,
                interactive,
                private_key_file,
                private_key_file_password,
                use_agent,
            },
        )
    }
}

/// Whether one host entry is well-typed: a dictionary with a string URL
/// and folder, optional strings elsewhere, a well-typed authentication
/// block, and a prefix length inside the accepted range.
pub open spec fn host_entry_ok(input: YamlValue) -> bool {
    match input {
        YamlValue::Dict(d) => {
            &&& yaml_lookup(d@, "url"@) matches Some(YamlValue::Str(_))
            &&& yaml_lookup(d@, "folder"@) matches Some(YamlValue::Str(_))
            &&& str_key_ok(d@, "hostname"@)
            &&& str_key_ok(d@, "user"@)
            &&& str_key_ok(d@, "group"@)
            &&& str_key_ok(d@, "password"@)
            &&& match yaml_lookup(d@, "auth"@) {
                None => true,
                Some(YamlValue::Dict(ad)) => auth_keys_ok(ad@),
                Some(_) => false,
            }
            &&& match yaml_lookup(d@, "prefix_length"@) {
                None => true,
                Some(YamlValue::Int(i)) => 8 <= i <= 64,
                Some(_) => false,
            }
        },
        _ => false,
    }
}

/// What one well-typed host entry yields, under the configuration's
/// authentication and prefix-length defaults.
pub open spec fn host_parsed(
    alias: String,
    d: Seq<(String, YamlValue)>,
    fb_auth: Auth,
    fb_prefix: u8,
) -> Host {
    Host {
        alias,
        auth: match yaml_lookup(d, "auth"@) {
            Some(YamlValue::Dict(ad)) => auth_parsed(ad@, fb_auth),
            _ => fb_auth,
        },
        folder: str_opt(d, "folder"@)->0,
        group: str_opt(d, "group"@),
        hostname: str_opt(d, "hostname"@),
        password: str_opt(d, "password"@),
        prefix_length: match yaml_lookup(d, "prefix_length"@) {
            Some(YamlValue::Int(i)) => i as u8,
            _ => fb_prefix,
        },
        url: str_opt(d, "url"@)->0,
        user: str_opt(d, "user"@),
    }
}

impl Host {
    /// Read one host entry under the configuration's defaults.  The store
    /// folder is kept as configured; expanding a leading `~` is the
    /// caller's concern, since it depends on the environment.
    pub fn from_yaml_with_config(alias: String, input: &YamlValue, config: &Config) -> (r: Result<
        Host,
        StoreError,
    >)
        ensures
            r is Ok <==> host_entry_ok(*input),
            r is Ok ==> (input matches YamlValue::Dict(d) && r->Ok_0 == host_parsed(
                alias,
                d@,
                config.auth,
                config.prefix_length,
            )),
    {
        let d = match input {
            YamlValue::Dict(d) => d,
            _ => {
                return Err(StoreError::InvalidHostEntry { alias });
            },
        };
        let url = match get_required_string(d, "url") {
            Err(e) => {
                return Err(e);
            },
            Ok(s) => s.clone(),
        };
        let folder = match get_required_string(d, "folder") {
            Err(e) => {
                return Err(e);
            },
            Ok(s) => s.clone(),
        };
        let hostname = match get_string_from(d, "hostname") {
            Err(e) => {
                return Err(StoreError::InvalidYamlType { key: e.key });
            },
            Ok(Some(s)) => Some(s.clone()),
            Ok(None) => None,
        };
        let user = match get_string_from(d, "user") {
            Err(e) => {
                return Err(StoreError::InvalidYamlType { key: e.key });
            },
            Ok(Some(s)) => Some(s.clone()),
            Ok(None) => None,
        };
        let group = match get_string_from(d, "group") {
            Err(e) => {
                return Err(StoreError::InvalidYamlType { key: e.key });
            },
            Ok(Some(s)) => Some(s.clone()),
            Ok(None) => None,
        };
        let password = match get_string_from(d, "password") {
            Err(e) => {
                return Err(StoreError::InvalidYamlType { key: e.key });
            },
            Ok(Some(s)) => Some(s.clone()),
            Ok(None) => None,
        };
        let auth = match get_dict_from(d, "auth") {
            Err(e) => {
                return Err(StoreError::InvalidYamlType { key: e.key });
            },
            Ok(Some(ad)) => match Auth::from_yaml(ad, Some(&config.auth)) {
                Err(e) => {
                    return Err(StoreError::InvalidYamlType { key: e.key });
                },
                Ok(auth) => auth,
            },
            Ok(None) => config.auth.clone(),
        };
        let prefix_length = match get_int_from(d, "prefix_length") {
            Err(e) => {
                return Err(StoreError::InvalidYamlType { key: e.key });
            },
            Ok(Some(i)) => {
                let value = *i;
                match check_prefix_length(value) {
                    Err(e) => {
                        return Err(e);
                    },
                    Ok(()) => value as u8,
                }
            },
            Ok(None) => config.prefix_length,
        };
        Ok(
            Host {
                alias,
                auth,
                folder,
                group,
                hostname,
                password,
                prefix_length,
                url,
                user,
            },
        )
    }

    /// The host name as configured, a supplied default, or finally the
    /// alias.
    pub fn get_hostname_def(&self, fallback: Option<String>) -> (r: String)
        ensures
            self.hostname is Some ==> r == self.hostname->0,
            self.hostname is None && fallback is Some ==> r == fallback->0,
            self.hostname is None && fallback is None ==> r == self.alias,
    {
        match &self.hostname {
            Some(h) => h.clone(),
            None => match fallback {
                Some(f) => f,
                None => self.alias.clone(),
            },
        }
    }
}

/// What a host entry's value yields; only meaningful for dictionary
/// values, which is all a well-typed host table holds.
pub open spec fn host_parsed_value(alias: String, v: YamlValue, fb_auth: Auth, fb_prefix: u8) -> Host {
    match v {
        YamlValue::Dict(d) => host_parsed(alias, d@, fb_auth, fb_prefix),
        _ => host_parsed(alias, Seq::empty(), fb_auth, fb_prefix),
    }
}

/// Whether the configuration's top level is well-typed: the prefix length
/// an integer in range, the default host a string, the verification switch
/// a boolean, a well-typed authentication block where it is a dictionary,
/// and a host table whose entries are all well-typed.
pub open spec fn config_head_ok(d: Seq<(String, YamlValue)>) -> bool {
    &&& match yaml_lookup(d, "prefix_length"@) {
        None => true,
        Some(YamlValue::Int(i)) => 8 <= i <= 64,
        Some(_) => false,
    }
    &&& str_key_ok(d, "default_host"@)
    &&& bool_key_ok(d, "verify_via_hash"@)
    &&& match yaml_lookup(d, "auth"@) {
        Some(YamlValue::Dict(ad)) => auth_keys_ok(ad@),
        _ => true,
    }
    &&& match yaml_lookup(d, "hosts"@) {
        None => true,
        Some(YamlValue::Dict(h)) => forall|w: int|
            0 <= w < h@.len() ==> host_entry_ok((#[trigger] h@[w]).1),
        Some(_) => false,
    }
}

/// The authentication block the top level yields.
pub open spec fn parsed_auth_head(d: Seq<(String, YamlValue)>) -> Auth {
    match yaml_lookup(d, "auth"@) {
        Some(YamlValue::Dict(ad)) => auth_parsed(ad@, auth_default()),
        _ => auth_default(),
    }
}

/// The prefix length the top level yields.
pub open spec fn parsed_prefix_head(d: Seq<(String, YamlValue)>) -> u8 {
    match yaml_lookup(d, "prefix_length"@) {
        Some(YamlValue::Int(i)) => i as u8,
        _ => 32,
    }
}

/// The host table a well-typed configuration yields, in table order.
pub open spec fn hosts_parsed(
    entries: Seq<(String, YamlValue)>,
    fb_auth: Auth,
    fb_prefix: u8,
) -> Seq<Host> {
    Seq::new(
        entries.len(),
        |w: int| host_parsed_value(entries[w].0, entries[w].1, fb_auth, fb_prefix),
    )
}

impl Config {
    /// Read the whole configuration from its parsed tree.
    ///
    /// The root must be a dictionary; the host table, where present, must
    /// be a dictionary of well-typed host entries.  An authentication
    /// entry that is not a dictionary falls back to the defaults.  Hosts
    /// inherit the global authentication settings and prefix length where
    /// they say nothing themselves.
    pub fn from_yaml(input: &YamlValue) -> (r: Result<Config, StoreError>)
        ensures
            r is Ok <==> (input matches YamlValue::Dict(d) && config_head_ok(d@)),
            r is Ok ==> (input matches YamlValue::Dict(d) && {
                let out = r->Ok_0;
                &&& out.auth == parsed_auth_head(d@)
                &&& out.default_host == str_opt(d@, "default_host"@)
                &&& out.prefix_length == parsed_prefix_head(d@)
                &&& out.verify_via_hash == bool_or(d@, "verify_via_hash"@, true)
                &&& out.hosts@ == match yaml_lookup(d@, "hosts"@) {
                    Some(YamlValue::Dict(h)) => hosts_parsed(
                        h@,
                        parsed_auth_head(d@),
                        parsed_prefix_head(d@),
                    ),
                    _ => Seq::<Host>::empty(),
                }
            }),
    {
        let d = match input {
            YamlValue::Dict(d) => d,
            _ => {
                return Err(StoreError::InvalidConfigRoot);
            },
        };
        let prefix_length: u8 = match get_int_from(d, "prefix_length") {
            Err(e) => {
                return Err(StoreError::InvalidYamlType { key: e.key });
            },
            Ok(Some(i)) => {
                let value = *i;
                match check_prefix_length(value) {
                    Err(e) => {
                        return Err(e);
                    },
                    Ok(()) => value as u8,
                }
            },
            Ok(None) => 32,
        };
        let auth = match crate::util::dict_get(d, "auth") {
            Some(YamlValue::Dict(ad)) => match Auth::from_yaml(ad, None) {
                Err(e) => {
                    return Err(StoreError::InvalidYamlType { key: e.key });
                },
                Ok(auth) => auth,
            },
            _ => Auth::default(),
        };
        let default_host = match get_string_from(d, "default_host") {
            Err(e) => {
                return Err(StoreError::InvalidYamlType { key: e.key });
            },
            Ok(Some(s)) => Some(s.clone()),
            Ok(None) => None,
        };
        let verify_via_hash = match get_bool_from(d, "verify_via_hash") {
            Err(e) => {
                return Err(StoreError::InvalidYamlType { key: e.key });
            },
            Ok(Some(b)) => *b,
            Ok(None) => true,
        };
        let head = Config {
            auth,
            default_host,
            hosts: Vec::new(),
            prefix_length,
            verify_via_hash,
        };
        proof {
            assert(head.auth == parsed_auth_head(d@));
            assert(head.prefix_length == parsed_prefix_head(d@));
        }
        let mut hosts: Vec<Host> = Vec::new();
        match crate::util::dict_get(d, "hosts") {
            None => {},
            Some(YamlValue::Dict(h)) => {
                let mut w: usize = 0;
                while w < h.len()
                    invariant
                        w <= h@.len(),
                        *input == YamlValue::Dict(*d),
                        yaml_lookup(d@, "hosts"@) == Some(YamlValue::Dict(*h)),
                        head.auth == parsed_auth_head(d@),
                        head.prefix_length == parsed_prefix_head(d@),
                        forall|v: int| 0 <= v < w ==> host_entry_ok((#[trigger] h@[v]).1),
                        hosts@.len() == w as int,
                        forall|v: int|
                            0 <= v < w ==> #[trigger] hosts@[v] == host_parsed_value(
                                h@[v].0,
                                h@[v].1,
                                head.auth,
                                head.prefix_length,
                            ),
                    decreases h@.len() - w,
                {
                    let entry = &h[w];
                    let alias = entry.0.clone();
                    match Host::from_yaml_with_config(alias, &entry.1, &head) {
                        Err(e) => {
                            proof {
                                assert(!config_head_ok(d@)) by {
                                    if config_head_ok(d@) {
                                        let h2 = yaml_lookup(d@, "hosts"@)->0->Dict_0;
                                        assert(h2 == *h);
                                        assert(forall|v: int|
                                            0 <= v < h2@.len() ==> host_entry_ok(
                                                (#[trigger] h2@[v]).1,
                                            ));
                                        assert(host_entry_ok(h2@[w as int].1));
                                        assert(h2@[w as int] == h@[w as int]);
                                    }
                                }
                            }
                            return Err(e);
                        },
                        Ok(host) => {
                            proof {
                                assert(host_parsed_value(
                                    h@[w as int].0,
                                    h@[w as int].1,
                                    head.auth,
                                    head.prefix_length,
                                ) == host);
                            }
                            hosts.push(host);
                        },
                    }
                    w = w + 1;
                }
            },
            Some(_) => {
                return Err(StoreError::InvalidHostsTable);
            },
        }
        let out = Config {
            auth: head.auth,
            default_host: head.default_host,
            hosts,
            prefix_length: head.prefix_length,
            verify_via_hash: head.verify_via_hash,
        };
        proof {
            match yaml_lookup(d@, "hosts"@) {
                Some(YamlValue::Dict(h)) => {
                    assert(out.hosts@ =~= hosts_parsed(
                        h@,
                        parsed_auth_head(d@),
                        parsed_prefix_head(d@),
                    ));
                },
                _ => {
                    assert(out.hosts@ =~= Seq::<Host>::empty());
                },
            }
        }
        Ok(out)
    }

    /// The host under an alias, the latest entry winning.
    pub open spec fn find_host(hosts: Seq<Host>, name: Seq<char>, n: int) -> Option<int>
        decreases n,
    {
        if n <= 0 {
            None
        } else if hosts[n - 1].alias@ == name {
            Some(n - 1)
        } else {
            Self::find_host(hosts, name, n - 1)
        }
    }

    /// Pick a host: the named one, else the configured default, else the
    /// only one there is.  With several hosts and no name the choice is
    /// ambiguous; with none configured there is nothing to pick.
    pub fn get_host(&self, alias: Option<&str>) -> (r: Result<&Host, StoreError>)
        ensures
            ({
                let chosen: Option<Seq<char>> = match alias {
                    Some(a) => Some(a@),
                    None => match self.default_host {
                        Some(h) => Some(h@),
                        None => None,
                    },
                };
                match chosen {
                    None => {
                        if self.hosts@.len() == 0 {
                            r matches Err(StoreError::NoHostConfigured)
                        } else if self.hosts@.len() == 1 {
                            r matches Ok(h) && *h == self.hosts@[0]
                        } else {
                            r matches Err(StoreError::AmbiguousHost)
                        }
                    },
                    Some(name) => match Self::find_host(
                        self.hosts@,
                        name,
                        self.hosts@.len() as int,
                    ) {
                        Some(i) => r matches Ok(h) && *h == self.hosts@[i],
                        None => (r matches Err(StoreError::UnknownHost { alias: a }) && a@
                            == name),
                    },
                }
            }),
    {
        let name: String = match alias {
            Some(a) => String::from_str(a),
            None => match &self.default_host {
                Some(h) => h.clone(),
                None => {
                    if self.hosts.len() == 0 {
                        return Err(StoreError::NoHostConfigured);
                    } else if self.hosts.len() == 1 {
                        return Ok(&self.hosts[0]);
                    } else {
                        return Err(StoreError::AmbiguousHost);
                    }
                },
            },
        };
        let mut found: Option<usize> = None;
        let mut n: usize = 0;
        while n < self.hosts.len()
            invariant
                n <= self.hosts@.len(),
                match found {
                    Some(i) => Self::find_host(self.hosts@, name@, n as int) == Some(i as int) && i
                        < self.hosts@.len(),
                    None => Self::find_host(self.hosts@, name@, n as int) is None,
                },
            decreases self.hosts@.len() - n,
        {
            if self.hosts[n].alias == name {
                found = Some(n);
            }
            n = n + 1;
        }
        match found {
            Some(i) => Ok(&self.hosts[i]),
            None => Err(StoreError::UnknownHost { alias: name }),
        }
    }
}

/// Whether a character must be escaped in a URL path: the C0 controls and
/// delete, plus space, double quote, angle brackets and backtick.
pub open spec fn url_escaped_char(c: char) -> bool {
    ('\u{0}' <= c && c < ' ') || c == '\u{7f}' || c == ' ' || c == '"' || c == '<' || c == '>'
        || c == '`'
}

/// An uppercase hexadecimal digit.
pub open spec fn upper_hex_digit(d: int) -> char
    recommends
        0 <= d < 16,
{
    if d < 10 {
        ((48 + d) as u8) as char
    } else {
        ((55 + d) as u8) as char
    }
}

/// One character of a URL path, percent-escaped where needed.
pub open spec fn percent_char(c: char) -> Seq<char> {
    if url_escaped_char(c) {
        seq!['%', upper_hex_digit(c as int / 16), upper_hex_digit(c as int % 16)]
    } else {
        seq![c]
    }
}

/// The percent-encoding of a file path for a URL: every character that
/// must be escaped becomes a percent sign and two uppercase hex digits;
/// everything else stays.
pub open spec fn percent_encoded(s: Seq<char>) -> Seq<char>
    decreases s.len(),
{
    if s.len() == 0 {
        Seq::empty()
    } else {
        percent_encoded(s.drop_last()) + percent_char(s.last())
    }
}

/// Percent-encode a file path for a URL.
fn percent_encode_path(s: &str) -> (r: String)
    ensures
        r@ == percent_encoded(s@),
{
    let cs = crate::strutil::chars_of(s);
    let mut r = String::new();
    let mut i: usize = 0;
    proof {
        assert(r@ =~= percent_encoded(cs@.take(0)));
    }
    while i < cs.len()
        invariant
            i <= cs@.len(),
            cs@ == s@,
            r@ == percent_encoded(cs@.take(i as int)),
        decreases cs@.len() - i,
    {
        let c = cs[i];
        let escape = ('\u{0}' <= c && c < ' ') || c == '\u{7f}' || c == ' ' || c == '"' || c == '<'
            || c == '>' || c == '`';
        proof {
            assert(cs@.take(i + 1).drop_last() =~= cs@.take(i as int));
            assert(cs@.take(i + 1).last() == cs@[i as int]);
            assert(escape == url_escaped_char(c));
        }
        if escape {
            let code = c as u8;
            let hi = code / 16;
            let lo = code % 16;
            let d1 = (if hi < 10 {
                48 + hi
            } else {
                55 + hi
            }) as char;
            let d2 = (if lo < 10 {
                48 + lo
            } else {
                55 + lo
            }) as char;
            proof {
                assert(0 <= (c as int) < 128);
                assert(code == c as int);
                assert(hi as int == (c as int) / 16);
                assert(lo as int == (c as int) % 16);
                assert(d1 == upper_hex_digit((c as int) / 16));
                assert(d2 == upper_hex_digit((c as int) % 16));
                assert(percent_char(c) =~= seq!['%', d1, d2]);
            }
            crate::strutil::push_char(&mut r, '%');
            crate::strutil::push_char(&mut r, d1);
            crate::strutil::push_char(&mut r, d2);
            proof {
                assert(r@ =~= percent_encoded(cs@.take(i + 1)));
            }
        } else {
            crate::strutil::push_char(&mut r, c);
            proof {
                assert(percent_char(c) =~= seq![c]);
                assert(r@ =~= percent_encoded(cs@.take(i + 1)));
            }
        }
        i = i + 1;
    }
    proof {
        assert(cs@.take(i as int) =~= cs@);
    }
    r
}

/// Relies on whoami's username; what it returns depends on the machine,
/// so nothing is promised of it.  A machine without one yields the empty
/// string.
#[verifier::external_body]
fn local_username() -> String {
    whoami::username().unwrap_or_default()
}

impl Host {
    /// The user to sign in as: the configured one, or the local username
    /// (which depends on the machine).
    pub fn get_username(&self) -> (r: String)
        ensures
            self.user is Some ==> r == self.user->0,
    {
        match &self.user {
            Some(u) => u.clone(),
            None => local_username(),
        }
    }

    /// The public URL of a stored file: the host's URL prefix, a slash,
    /// then the percent-encoded relative path.
    pub fn get_url(&self, file: &str) -> (r: Result<String, StoreError>)
        ensures
            r is Ok,
            r->Ok_0@ == self.url@ + seq!['/'] + percent_encoded(file@),
    {
        let mut url = self.url.clone();
        crate::strutil::push_char(&mut url, '/');
        let encoded = percent_encode_path(file);
        url.append(encoded.as_str());
        Ok(url)
    }
}

/// A built-in host entry usable for exercising the configuration rules
/// without any configuration file.
pub fn dummy_host_str() -> (r: &'static str)
    ensures
        r@ == "url: https://dummy.org\nfolder: /tmp/asfa-dummy\nhostname: dummy.example.org\n"@,
{
    "url: https://dummy.org\nfolder: /tmp/asfa-dummy\nhostname: dummy.example.org\n"
}

} // verus!
