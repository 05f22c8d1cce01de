//! The openssh client's resolved configuration for one host, as the client
//! prints it (`key value` lines), read into a keyed multimap.  Running the
//! client is the transport's part; every rule that reads its output is
//! verified here.

use vstd::prelude::*;
use vstd::string::StringExecFns;
use crate::remote::{char_pos, find_char, vec_prefix, vec_suffix};
use crate::strutil::{chars_of, lines_of, lines_vec, seq_without, string_of, vec_without};

verus! {

/// One configuration key's values.
pub enum OpenSshConfigEntry {
    /// The key appeared once.
    Single(String),
    /// The key appeared several times, values in appearance order.
    Multiple(Vec<String>),
}

/// The resolved openssh configuration of one host.
pub struct OpenSshConfig {
    pub entries: Vec<(String, OpenSshConfigEntry)>,
}

/// Why the openssh configuration could not be read.
pub enum OpenSshError {
    /// The openssh client executable is absent.
    ExecutableNotFound,
    /// Running the client failed.
    IOError,
    /// The client printed something that is not text.
    Utf8Error,
}

/// The key of an output line: everything before the first space.
pub open spec fn line_key(line: Seq<char>) -> Seq<char> {
    line.take(char_pos(line, ' '))
}

/// The value of an output line: everything after the first space, with
/// every further space dropped (the parts are joined back to back).
pub open spec fn line_value(line: Seq<char>) -> Seq<char> {
    if char_pos(line, ' ') >= line.len() {
        Seq::empty()
    } else {
        seq_without(line.skip(char_pos(line, ' ') + 1), ' ')
    }
}

/// The values an entry holds.
pub open spec fn entry_values(e: OpenSshConfigEntry) -> Seq<Seq<char>> {
    match e {
        OpenSshConfigEntry::Single(v) => seq![v@],
        OpenSshConfigEntry::Multiple(vs) => vs.deep_view(),
    }
}

/// The key/value table a configuration holds.
pub open spec fn config_view(entries: Seq<(String, OpenSshConfigEntry)>) -> Seq<
    (Seq<char>, Seq<Seq<char>>),
> {
    entries.map_values(|e: (String, OpenSshConfigEntry)| (e.0@, entry_values(e.1)))
}

/// The first position of a key in a table.
pub open spec fn key_pos(m: Seq<(Seq<char>, Seq<Seq<char>>)>, key: Seq<char>, n: int) -> Option<
    int,
>
    decreases n,
{
    if n <= 0 {
        None
    } else {
        match key_pos(m, key, n - 1) {
            Some(i) => Some(i),
            None => {
                if m[n - 1].0 == key {
                    Some(n - 1)
                } else {
                    None
                }
            },
        }
    }
}

/// The table with one more line's key and value folded in: a fresh key
/// starts a new entry, a repeated one collects its values in order.
pub open spec fn ossh_add(
    m: Seq<(Seq<char>, Seq<Seq<char>>)>,
    key: Seq<char>,
    value: Seq<char>,
) -> Seq<(Seq<char>, Seq<Seq<char>>)> {
    match key_pos(m, key, m.len() as int) {
        None => m.push((key, seq![value])),
        Some(i) => m.update(i, (m[i].0, m[i].1.push(value))),
    }
}

/// The table the first `k` output lines build.
pub open spec fn ossh_parsed(lines: Seq<Seq<char>>, k: int) -> Seq<(Seq<char>, Seq<Seq<char>>)>
    decreases k,
{
    if k <= 0 {
        Seq::empty()
    } else {
        ossh_add(ossh_parsed(lines, k - 1), line_key(lines[k - 1]), line_value(lines[k - 1]))
    }
}

/// The single value under a key: nothing where the key is absent or
/// appeared more than once.
pub open spec fn single_value(m: Seq<(Seq<char>, Seq<Seq<char>>)>, key: Seq<char>) -> Option<
    Seq<char>,
> {
    match key_pos(m, key, m.len() as int) {
        Some(i) => {
            if m[i].1.len() == 1 {
                Some(m[i].1[0])
            } else {
                None
            }
        },
        None => None,
    }
}

impl OpenSshConfig {
    /// The table this configuration holds.
    pub open spec fn table(&self) -> Seq<(Seq<char>, Seq<Seq<char>>)> {
        config_view(self.entries@)
    }

    /// A multimap entry collects at least two values; a single value is a
    /// `Single` entry.
    pub open spec fn wf(&self) -> bool {
        forall|j: int|
            0 <= j < self.entries@.len() ==> match (#[trigger] self.entries@[j]).1 {
                OpenSshConfigEntry::Multiple(vs) => vs@.len() >= 2,
                OpenSshConfigEntry::Single(_) => true,
            }
    }

    /// Read the client's resolved output into the keyed table.
    pub fn from_output(output: &str) -> (r: OpenSshConfig)
        ensures
            r.table() == ossh_parsed(lines_of(output@), lines_of(output@).len() as int),
            r.wf(),
    {
        let cs = chars_of(output);
        let lines = lines_vec(&cs);
        let ghost lines_spec = lines_of(output@);
        let mut entries: Vec<(String, OpenSshConfigEntry)> = Vec::new();
        let mut k: usize = 0;
        proof {
            assert(config_view(entries@) =~~= ossh_parsed(lines_spec, 0));
        }
        while k < lines.len()
            invariant
                k <= lines@.len(),
                lines.deep_view() == lines_spec,
                config_view(entries@) == ossh_parsed(lines_spec, k as int),
                forall|j: int|
                    0 <= j < entries@.len() ==> match (#[trigger] entries@[j]).1 {
                        OpenSshConfigEntry::Multiple(vs) => vs@.len() >= 2,
                        OpenSshConfigEntry::Single(_) => true,
                    },
            decreases lines@.len() - k,
        {
            let line = &lines[k];
            proof {
                assert(line@ == lines_spec[k as int]);
            }
            let p = find_char(line, ' ');
            let key_chars = vec_prefix(line, p);
            let value_chars = if p < line.len() {
                let tail = vec_suffix(line, p + 1);
                vec_without(&tail, ' ')
            } else {
                Vec::new()
            };
            proof {
                assert(key_chars@ == line_key(line@));
                if p >= line@.len() {
                    assert(value_chars@ =~= line_value(line@));
                } else {
                    assert(value_chars@ == line_value(line@));
                }
            }
            let key = string_of(key_chars.as_slice());
            let value = string_of(value_chars.as_slice());
            let ghost before = config_view(entries@);
            let found = find_key(&entries, &key);
            match found {
                None => {
                    entries.push((key, OpenSshConfigEntry::Single(value)));
                    proof {
                        assert(config_view(entries@) =~~= before.push(
                            (key@, seq![value@]),
                        ));
                    }
                },
                Some(i) => {
                    let (old_key, old_entry) = entries.remove(i);
                    let new_entry = match old_entry {
                        OpenSshConfigEntry::Single(v) => {
                            let mut vs: Vec<String> = Vec::new();
                            vs.push(v);
                            vs.push(value);
                            OpenSshConfigEntry::Multiple(vs)
                        },
                        OpenSshConfigEntry::Multiple(mut vs) => {
                            let ghost vs_before = vs.deep_view();
                            vs.push(value);
                            proof {
                                assert(vs.deep_view() =~~= vs_before.push(value@));
                            }
                            OpenSshConfigEntry::Multiple(vs)
                        },
                    };
                    proof {
                        assert(entry_values(new_entry) =~~= before[i as int].1.push(value@));
                    }
                    entries.insert(i, (old_key, new_entry));
                    proof {
                        assert(config_view(entries@) =~~= before.update(
                            i as int,
                            (before[i as int].0, before[i as int].1.push(value@)),
                        ));
                    }
                },
            }
            k = k + 1;
            proof {
                assert(config_view(entries@) =~~= ossh_parsed(lines_spec, k as int));
            }
        }
        proof {
            assert(k as int == lines_spec.len());
        }
        OpenSshConfig { entries }
    }

    /// The host name the client resolved, with its port attached where one
    /// is resolved too.
    pub fn hostname(&self) -> (r: Option<String>)
        requires
            self.wf(),
        ensures
            match single_value(self.table(), "hostname"@) {
                None => r is None,
                Some(h) => match single_value(self.table(), "port"@) {
                    Some(p) => r matches Some(v) && v@ == h + seq![':'] + p,
                    None => r matches Some(v) && v@ == h,
                },
            },
    {
        let hostname = match self.single_entry("hostname") {
            None => {
                return None;
            },
            Some(h) => h.clone(),
        };
        match self.port() {
            Some(p) => {
                let mut full = hostname;
                crate::strutil::push_char(&mut full, ':');
                full.append(p.as_str());
                Some(full)
            },
            None => Some(hostname),
        }
    }

    /// The port the client resolved.
    pub fn port(&self) -> (r: Option<String>)
        requires
            self.wf(),
        ensures
            match single_value(self.table(), "port"@) {
                None => r is None,
                Some(p) => r matches Some(v) && v@ == p,
            },
    {
        match self.single_entry("port") {
            None => None,
            Some(p) => Some(p.clone()),
        }
    }

    /// The user the client resolved.
    pub fn user(&self) -> (r: Option<String>)
        requires
            self.wf(),
        ensures
            match single_value(self.table(), "user"@) {
                None => r is None,
                Some(u) => r matches Some(v) && v@ == u,
            },
    {
        match self.single_entry("user") {
            None => None,
            Some(u) => Some(u.clone()),
        }
    }

    /// Every private key file the client names, in order.
    pub fn private_key_files(&self) -> (r: Vec<String>)
        ensures
            r.deep_view() == match key_pos(
                self.table(),
                "identityfile"@,
                self.table().len() as int,
            ) {
                Some(i) => self.table()[i].1,
                None => Seq::<Seq<char>>::empty(),
            },
    {
        let found = find_key(&self.entries, &String::from_str("identityfile"));
        match found {
            None => {
                let r: Vec<String> = Vec::new();
                proof {
                    assert(r.deep_view() =~~= Seq::<Seq<char>>::empty());
                }
                r
            },
            Some(i) => match &self.entries[i].1 {
                OpenSshConfigEntry::Single(v) => {
                    let mut r: Vec<String> = Vec::new();
                    r.push(v.clone());
                    proof {
                        assert(r.deep_view() =~~= self.table()[i as int].1);
                    }
                    r
                },
                OpenSshConfigEntry::Multiple(vs) => {
                    let mut r: Vec<String> = Vec::new();
                    let mut w: usize = 0;
                    while w < vs.len()
                        invariant
                            w <= vs@.len(),
                            r.deep_view() == vs.deep_view().take(w as int),
                        decreases vs@.len() - w,
                    {
                        let cloned = vs[w].clone();
                        let ghost r_before = r.deep_view();
                        proof {
                            assert(cloned.deep_view() == vs.deep_view()[w as int]);
                        }
                        r.push(cloned);
                        w = w + 1;
                        proof {
                            assert(r.deep_view() =~~= r_before.push(vs.deep_view()[w - 1]));
                            assert(vs.deep_view().take(w as int) =~~= vs.deep_view().take(
                                w - 1,
                            ).push(vs.deep_view()[w - 1]));
                            assert(r.deep_view() =~~= vs.deep_view().take(w as int));
                        }
                    }
                    proof {
                        assert(vs.deep_view().take(w as int) =~= vs.deep_view());
                        assert(r.deep_view() =~~= self.table()[i as int].1);
                    }
                    r
                },
            },
        }
    }

    /// The single value under a key, where the key appeared exactly once.
    fn single_entry(&self, key: &str) -> (r: Option<&String>)
        requires
            self.wf(),
        ensures
            match single_value(self.table(), key@) {
                None => r is None,
                Some(v) => r matches Some(s) && s@ == v,
            },
    {
        let found = find_key(&self.entries, &String::from_str(key));
        match found {
            None => None,
            Some(i) => match &self.entries[i].1 {
                OpenSshConfigEntry::Single(v) => Some(v),
                OpenSshConfigEntry::Multiple(vs) => {
                    proof {
                        assert(self.table()[i as int].1.len() == vs.deep_view().len());
                    }
                    None
                },
            },
        }
    }
}

/// The first entry under a key.
fn find_key(entries: &Vec<(String, OpenSshConfigEntry)>, key: &String) -> (r: Option<usize>)
    ensures
        match r {
            Some(i) => i < entries@.len() && key_pos(
                config_view(entries@),
                key@,
                entries@.len() as int,
            ) == Some(i as int),
            None => key_pos(config_view(entries@), key@, entries@.len() as int) is None,
        },
{
    let ghost cv = config_view(entries@);
    let mut n: usize = 0;
    while n < entries.len()
        invariant
            n <= entries@.len(),
            cv == config_view(entries@),
            key_pos(cv, key@, n as int) is None,
        decreases entries@.len() - n,
    {
        proof {
            assert(cv[n as int].0 == entries@[n as int].0@);
        }
        if entries[n].0 == *key {
            proof {
                lemma_key_pos_found(cv, key@, n as int, entries@.len() as int);
            }
            return Some(n);
        }
        n = n + 1;
    }
    None
}

/// Once a key is found first at a position, longer scans agree.
proof fn lemma_key_pos_found(m: Seq<(Seq<char>, Seq<Seq<char>>)>, key: Seq<char>, i: int, n: int)
    requires
        0 <= i < n <= m.len(),
        key_pos(m, key, i) is None,
        m[i].0 == key,
    ensures
        key_pos(m, key, n) == Some(i),
    decreases n,
{
    if n == i + 1 {
    } else {
        lemma_key_pos_found(m, key, i, n - 1);
    }
}

} // verus!
