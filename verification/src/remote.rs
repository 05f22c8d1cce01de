//! What crosses the boundary to the remote site: executed command results,
//! the construction of the remote hashing command, and the parsing of the
//! text the remote utilities print (hash batches, bulk stats, the store
//! listing).  The transport itself lives outside; this module only builds
//! command strings and reads output strings.

use vstd::prelude::*;
use vstd::string::StrSliceExecFns;
use vstd::string::StringExecFns;
use crate::errors::StoreError;
use crate::file_listing::{FileStat, RemotePath};
use crate::hashing::{b64_urlsafe, b64_urlsafe_of, hash_len_valid, hex_bytes, hex_decodable, hex_decode, prefix_chars};
use crate::strutil::{
    all_dec_digits, chars_of, dec_value, lines_of, lines_vec, parse_u64, push_char, split_chars_on,
    split_on, string_of,
};

verus! {

/// The outcome of one remote command: what was run, its exit status and
/// both output streams.
pub struct ExecutedRemoteCommand {
    pub cmd: String,
    pub exit_status: i32,
    pub stdout: String,
    pub stderr: String,
}

impl ExecutedRemoteCommand {
    /// Wrap the outcome of a command the transport has run.
    pub fn from_parts(cmd: String, exit_status: i32, stdout: String, stderr: String) -> (r: Self)
        ensures
            r.cmd == cmd,
            r.exit_status == exit_status,
            r.stdout == stdout,
            r.stderr == stderr,
    {
        ExecutedRemoteCommand { cmd, exit_status, stdout, stderr }
    }

    /// The command's exit status.
    pub fn exit_status(&self) -> (r: i32)
        ensures
            r == self.exit_status,
    {
        self.exit_status
    }

    /// The command's standard output.
    pub fn stdout(&self) -> (r: &str)
        ensures
            r@ == self.stdout@,
    {
        self.stdout.as_str()
    }

    /// The command's standard error.
    pub fn stderr(&self) -> (r: &str)
        ensures
            r@ == self.stderr@,
    {
        self.stderr.as_str()
    }

    /// Demand success: a non-zero exit becomes a failure carrying the
    /// given message.
    pub fn expect(self, msg: &str) -> (r: Result<Self, StoreError>)
        ensures
            r is Ok <==> self.exit_status == 0,
            r is Ok ==> r->Ok_0 == self,
            r is Err ==> (r->Err_0 matches StoreError::RemoteCommandFailure {
                exit_status,
                message,
            } && exit_status == self.exit_status && message@ == msg@),
    {
        if self.exit_status != 0 {
            let message = String::from_str(msg);
            self.fail(message)
        } else {
            Ok(self)
        }
    }

    /// Demand success, with a message chosen from the exit status.
    pub fn expect_with<F: Fn(i32) -> String>(self, fn_exit_code_to_msg: F) -> (r: Result<
        Self,
        StoreError,
    >)
        requires
            self.exit_status != 0 ==> call_requires(fn_exit_code_to_msg, (self.exit_status,)),
        ensures
            r is Ok <==> self.exit_status == 0,
            r is Ok ==> r->Ok_0 == self,
            r is Err ==> (r->Err_0 matches StoreError::RemoteCommandFailure {
                exit_status,
                message,
            } && exit_status == self.exit_status && call_ensures(
                fn_exit_code_to_msg,
                (self.exit_status,),
                message,
            )),
    {
        if self.exit_status != 0 {
            let message = fn_exit_code_to_msg(self.exit_status);
            self.fail(message)
        } else {
            Ok(self)
        }
    }

    /// Turn this outcome into a failure carrying the given message.
    pub fn fail(self, msg: String) -> (r: Result<Self, StoreError>)
        ensures
            r is Err,
            r->Err_0 matches StoreError::RemoteCommandFailure { exit_status, message }
                && exit_status == self.exit_status && message == msg,
    {
        Err(StoreError::RemoteCommandFailure { exit_status: self.exit_status, message: msg })
    }
}

/// Whether a hostname already carries a port.
pub open spec fn has_port(s: Seq<char>) -> bool {
    exists|i: int| 0 <= i < s.len() && s[i] == ':'
}

/// Attach the default ssh port to a bare hostname; one that already names
/// a port is kept as it is.
pub fn ensure_port(hostname: &str) -> (r: String)
    ensures
        has_port(hostname@) ==> r@ == hostname@,
        !has_port(hostname@) ==> r@ == hostname@ + ":22"@,
{
    let cs = chars_of(hostname);
    let mut i: usize = 0;
    while i < cs.len()
        invariant
            i <= cs@.len(),
            cs@ == hostname@,
            forall|j: int| 0 <= j < i ==> cs@[j] != ':',
        decreases cs@.len() - i,
    {
        if cs[i] == ':' {
            return String::from_str(hostname);
        }
        i = i + 1;
    }
    let mut r = String::from_str(hostname);
    r.append(":22");
    r
}

/// A store path under the base folder: the base, a separator, then the
/// relative path.
pub open spec fn prepended(base: Seq<char>, rel: Seq<char>) -> Seq<char> {
    base + seq!['/'] + rel
}

/// Put the host's base folder in front of a relative path.
pub fn prepend_base_folder(base: &str, rel: &str) -> (r: String)
    ensures
        r@ == prepended(base@, rel@),
{
    let mut r = String::from_str(base);
    push_char(&mut r, '/');
    r.append(rel);
    r
}

impl RemotePath {
    /// The path relative to the store root, folder and name joined.
    pub fn rel_string(&self) -> (r: String)
        ensures
            r@ == self.folder@ + seq!['/'] + self.name@,
    {
        let mut r = self.folder.clone();
        push_char(&mut r, '/');
        r.append(self.name.as_str());
        r
    }
}

/// The remote utility a truncation length selects.
pub open spec fn hash_tool(length: u8) -> Seq<char> {
    if length > 32 {
        "sha512sum"@
    } else {
        "sha256sum"@
    }
}

/// The arguments of the hashing command: each path quoted, appended after
/// a space.
pub open spec fn quoted_args(paths: Seq<Seq<char>>, k: int) -> Seq<char>
    decreases k,
{
    if k <= 0 {
        Seq::empty()
    } else {
        quoted_args(paths, k - 1) + seq![' ', '"'] + paths[k - 1] + seq!['"']
    }
}

/// Build the remote hashing command: the digest utility the length
/// selects, then every path quoted.  The same threshold as local hashing
/// decides between the 256-bit and the 512-bit utility.
pub fn remote_hash_command(paths: &Vec<String>, length: u8) -> (r: Result<String, StoreError>)
    ensures
        r is Ok <==> hash_len_valid(length),
        r is Err ==> (r->Err_0 matches StoreError::InvalidHashLength { length: l } && l == length),
        r is Ok ==> r->Ok_0@ == hash_tool(length) + quoted_args(
            paths.deep_view(),
            paths@.len() as int,
        ),
{
    if length == 0 || length > 64 {
        return Err(StoreError::InvalidHashLength { length });
    }
    let mut cmd = if length <= 32 {
        String::from_str("sha256sum")
    } else {
        String::from_str("sha512sum")
    };
    let mut k: usize = 0;
    while k < paths.len()
        invariant
            k <= paths@.len(),
            cmd@ == hash_tool(length) + quoted_args(paths.deep_view(), k as int),
            hash_len_valid(length),
        decreases paths@.len() - k,
    {
        push_char(&mut cmd, ' ');
        push_char(&mut cmd, '"');
        cmd.append(paths[k].as_str());
        push_char(&mut cmd, '"');
        k = k + 1;
        proof {
            assert(paths.deep_view()[k - 1] == paths@[k - 1]@);
            assert(cmd@ =~= hash_tool(length) + quoted_args(paths.deep_view(), k as int));
        }
    }
    Ok(cmd)
}

/// Read the exit of the remote hashing command: the reserved exit code 127
/// means the utility is absent; any other non-zero exit is a remote
/// failure; zero is success.
pub fn check_remote_hash_exit(out: &ExecutedRemoteCommand, length: u8) -> (r: Result<
    (),
    StoreError,
>)
    ensures
        r is Ok <==> out.exit_status == 0,
        out.exit_status == 127 ==> (r->Err_0 matches StoreError::RemoteToolMissing { tool }
            && tool@ == hash_tool(length)),
        out.exit_status != 0 && out.exit_status != 127 ==> (
        r->Err_0 matches StoreError::RemoteCommandFailure { exit_status, message } && exit_status
            == out.exit_status && message@ == out.stderr@),
{
    if out.exit_status == 0 {
        Ok(())
    } else if out.exit_status == 127 {
        let tool = if length > 32 {
            String::from_str("sha512sum")
        } else {
            String::from_str("sha256sum")
        };
        Err(StoreError::RemoteToolMissing { tool })
    } else {
        Err(
            StoreError::RemoteCommandFailure {
                exit_status: out.exit_status,
                message: String::from_str(out.stderr.as_str()),
            },
        )
    }
}

/// Whether a character separates fields in a utility's output line.
pub open spec fn is_field_space(c: char) -> bool {
    c == ' ' || c == '\t'
}

/// The first whitespace-separated field of a line.
pub open spec fn first_field(line: Seq<char>) -> Seq<char>
    decreases line.len(),
{
    if line.len() == 0 {
        Seq::empty()
    } else if is_field_space(line[0]) {
        first_field(line.skip(1))
    } else {
        head_field(line)
    }
}

/// The longest leading run of non-space characters.
pub open spec fn head_field(line: Seq<char>) -> Seq<char>
    decreases line.len(),
{
    if line.len() == 0 || is_field_space(line[0]) {
        Seq::empty()
    } else {
        seq![line[0]] + head_field(line.skip(1))
    }
}

/// The hash token one output line yields: its first field read as hex
/// bytes, re-encoded with URL-safe base64 and truncated to the requested
/// length; nothing where the field is empty, not hex, or unreasonably
/// long.
pub open spec fn token_of_line(line: Seq<char>, length: u8) -> Option<Seq<char>> {
    let field = first_field(line);
    if field.len() > 0 && field.len() < 2000000 && hex_decodable(field) {
        let encoded = b64_urlsafe_of(hex_bytes(field));
        Some(
            encoded.take(
                if length as int <= encoded.len() {
                    length as int
                } else {
                    encoded.len() as int
                },
            ),
        )
    } else {
        None
    }
}

/// The hash tokens of the first `k` output lines, lines without a token
/// skipped.
pub open spec fn remote_tokens(lines: Seq<Seq<char>>, length: u8, k: int) -> Seq<Seq<char>>
    decreases k,
{
    if k <= 0 {
        Seq::empty()
    } else {
        let rest = remote_tokens(lines, length, k - 1);
        match token_of_line(lines[k - 1], length) {
            Some(token) => rest.push(token),
            None => rest,
        }
    }
}

/// Read the output of the remote hashing command into hash tokens, one
/// per input path and in input order; any other count is a protocol
/// violation and fails with `HashCountMismatch`.
pub fn parse_remote_hashes(stdout: &str, length: u8, expected: usize) -> (r: Result<
    Vec<String>,
    StoreError,
>)
    ensures
        ({
            let tokens = remote_tokens(
                lines_of(stdout@),
                length,
                lines_of(stdout@).len() as int,
            );
            &&& (r is Ok <==> tokens.len() == expected)
            &&& (r is Err ==> (r->Err_0 matches StoreError::HashCountMismatch { expected: e, actual }
                && e == expected && actual == tokens.len()))
            &&& (r is Ok ==> r->Ok_0.deep_view() == tokens)
        }),
{
    let cs = chars_of(stdout);
    let lines = lines_vec(&cs);
    let ghost lines_spec = lines_of(stdout@);
    let mut tokens: Vec<String> = Vec::new();
    let mut k: usize = 0;
    while k < lines.len()
        invariant
            k <= lines@.len(),
            lines.deep_view() == lines_spec,
            tokens.deep_view() == remote_tokens(lines_spec, length, k as int),
        decreases lines@.len() - k,
    {
        let line = &lines[k];
        proof {
            assert(line@ == lines_spec[k as int]);
        }
        let field = take_first_field(line);
        if field.len() > 0 && field.len() < 2000000 {
            let field_str = string_of(field.as_slice());
            match hex_decode(field_str.as_str()) {
                Some(bytes) => {
                    let encoded = b64_urlsafe(bytes.as_slice());
                    let token = prefix_chars(encoded.as_str(), length as usize);
                    tokens.push(token);
                },
                None => {},
            }
        }
        k = k + 1;
        proof {
            assert(tokens.deep_view() =~~= remote_tokens(lines_spec, length, k as int));
        }
    }
    proof {
        assert(k as int == lines_spec.len());
    }
    if tokens.len() != expected {
        let actual = tokens.len();
        return Err(StoreError::HashCountMismatch { expected, actual });
    }
    Ok(tokens)
}

/// Extract the first whitespace-separated field of a line.
fn take_first_field(line: &Vec<char>) -> (r: Vec<char>)
    ensures
        r@ == first_field(line@),
{
    let mut start: usize = 0;
    proof {
        assert(line@.skip(0) =~= line@);
    }
    while start < line.len()
        invariant
            start <= line@.len(),
            first_field(line@) == first_field(line@.skip(start as int)),
            forall|j: int| 0 <= j < start ==> is_field_space(line@[j]),
        ensures
            start <= line@.len(),
            first_field(line@) == first_field(line@.skip(start as int)),
            start < line@.len() ==> !is_field_space(line@[start as int]),
        decreases line@.len() - start,
    {
        if !(line[start] == ' ' || line[start] == '\t') {
            break ;
        }
        proof {
            assert(line@.skip(start as int)[0] == line@[start as int]);
            assert(line@.skip(start as int).skip(1) =~= line@.skip(start + 1));
        }
        start = start + 1;
    }
    let mut r: Vec<char> = Vec::new();
    let mut i: usize = start;
    while i < line.len()
        invariant
            start <= i <= line@.len(),
            forall|j: int| start <= j < i ==> !is_field_space(line@[j]),
            r@ == line@.subrange(start as int, i as int),
        ensures
            start <= i <= line@.len(),
            forall|j: int| start <= j < i ==> !is_field_space(line@[j]),
            r@ == line@.subrange(start as int, i as int),
            i < line@.len() ==> is_field_space(line@[i as int]),
        decreases line@.len() - i,
    {
        if line[i] == ' ' || line[i] == '\t' {
            break ;
        }
        r.push(line[i]);
        i = i + 1;
        proof {
            assert(r@ =~= line@.subrange(start as int, i as int));
        }
    }
    proof {
        lemma_head_field_run(line@, start as int, i as int);
        if start == line@.len() {
            assert(line@.skip(start as int) =~= Seq::<char>::empty());
        }
        assert(r@ =~= first_field(line@));
    }
    r
}

/// A run of non-space characters, ended by a space or the line's end, is
/// exactly the head field of the line's tail.
proof fn lemma_head_field_run(line: Seq<char>, start: int, stop: int)
    requires
        0 <= start <= stop <= line.len(),
        forall|j: int| start <= j < stop ==> !is_field_space(line[j]),
        stop < line.len() ==> is_field_space(line[stop]),
    ensures
        head_field(line.skip(start)) == line.subrange(start, stop),
        start < line.len() && !is_field_space(line[start]) ==> first_field(line.skip(start))
            == line.subrange(start, stop),
        start == line.len() ==> first_field(line.skip(start)) == line.subrange(start, stop),
    decreases stop - start,
{
    let tail = line.skip(start);
    if start == stop {
        if stop < line.len() {
            assert(tail[0] == line[stop]);
            assert(head_field(tail) =~= line.subrange(start, stop));
        } else {
            assert(tail =~= Seq::<char>::empty());
            assert(head_field(tail) =~= line.subrange(start, stop));
            assert(first_field(tail) =~= line.subrange(start, stop));
        }
    } else {
        assert(tail[0] == line[start]);
        assert(!is_field_space(tail[0]));
        lemma_head_field_run(line, start + 1, stop);
        assert(tail.skip(1) =~= line.skip(start + 1));
        assert(head_field(tail) == seq![tail[0]] + head_field(tail.skip(1)));
        assert(head_field(tail) =~= line.subrange(start, stop));
    }
}

/// The position of the first occurrence of a character, or the length if
/// it does not occur.
pub open spec fn char_pos(s: Seq<char>, c: char) -> int
    decreases s.len(),
{
    if s.len() == 0 {
        0
    } else if s[0] == c {
        0
    } else {
        1 + char_pos(s.skip(1), c)
    }
}

/// A run without the character, ended by it or by the end, puts the first
/// occurrence at the run's end.
proof fn lemma_char_pos_run(s: Seq<char>, c: char, stop: int)
    requires
        0 <= stop <= s.len(),
        forall|j: int| 0 <= j < stop ==> s[j] != c,
        stop < s.len() ==> s[stop] == c,
    ensures
        char_pos(s, c) == stop,
    decreases stop,
{
    if stop == 0 {
        if s.len() == 0 {
        }
    } else {
        assert(s[0] != c);
        lemma_char_pos_run(s.skip(1), c, stop - 1);
        assert forall|j: int| 0 <= j < stop - 1 implies s.skip(1)[j] != c by {
            assert(s.skip(1)[j] == s[j + 1]);
        }
        if stop < s.len() {
            assert(s.skip(1)[stop - 1] == s[stop]);
        }
    }
}

/// Find the first occurrence of a character.
pub fn find_char(cs: &Vec<char>, c: char) -> (r: usize)
    ensures
        r == char_pos(cs@, c),
        r <= cs@.len(),
        r < cs@.len() ==> cs@[r as int] == c,
        forall|j: int| 0 <= j < r ==> cs@[j] != c,
{
    let mut i: usize = 0;
    while i < cs.len()
        invariant
            i <= cs@.len(),
            forall|j: int| 0 <= j < i ==> cs@[j] != c,
        ensures
            i <= cs@.len(),
            forall|j: int| 0 <= j < i ==> cs@[j] != c,
            i < cs@.len() ==> cs@[i as int] == c,
        decreases cs@.len() - i,
    {
        if cs[i] == c {
            break ;
        }
        i = i + 1;
    }
    proof {
        lemma_char_pos_run(cs@, c, i as int);
    }
    i
}

/// What one line of the bulk stat utility's output records: modification
/// time, size, then the path, separated by single spaces; the path may
/// itself contain spaces.  Lines whose numbers do not read as decimal
/// values are dropped.
pub open spec fn stat_line(line: Seq<char>) -> Option<(Seq<char>, FileStat)> {
    let p1 = char_pos(line, ' ');
    if p1 >= line.len() {
        None
    } else {
        let rest = line.skip(p1 + 1);
        let p2 = char_pos(rest, ' ');
        if p2 >= rest.len() {
            None
        } else {
            let mtime_s = line.take(p1);
            let size_s = rest.take(p2);
            let name = rest.skip(p2 + 1);
            if mtime_s.len() > 0 && all_dec_digits(mtime_s) && dec_value(mtime_s) <= u64::MAX
                && size_s.len() > 0 && all_dec_digits(size_s) && dec_value(size_s) <= u64::MAX {
                Some(
                    (
                        name,
                        FileStat {
                            size: dec_value(size_s) as u64,
                            mtime: dec_value(mtime_s) as u64,
                        },
                    ),
                )
            } else {
                None
            }
        }
    }
}

/// The records of the first `k` output lines, unreadable lines dropped.
pub open spec fn parsed_stats(lines: Seq<Seq<char>>, k: int) -> Seq<(Seq<char>, FileStat)>
    decreases k,
{
    if k <= 0 {
        Seq::empty()
    } else {
        let rest = parsed_stats(lines, k - 1);
        match stat_line(lines[k - 1]) {
            Some(entry) => rest.push(entry),
            None => rest,
        }
    }
}

/// Read the output of the bulk stat utility: one record per readable
/// line, carrying the full path and its stat.
pub fn parse_bulk_stats(raw: &str) -> (r: Vec<(String, FileStat)>)
    ensures
        ({
            let entries = parsed_stats(lines_of(raw@), lines_of(raw@).len() as int);
            &&& r@.len() == entries.len()
            &&& forall|w: int|
                0 <= w < entries.len() ==> (#[trigger] r@[w]).0@ == entries[w].0 && r@[w].1
                    == entries[w].1
        }),
{
    let cs = chars_of(raw);
    let lines = lines_vec(&cs);
    let ghost lines_spec = lines_of(raw@);
    let mut r: Vec<(String, FileStat)> = Vec::new();
    let mut k: usize = 0;
    while k < lines.len()
        invariant
            k <= lines@.len(),
            lines.deep_view() == lines_spec,
            r@.len() == parsed_stats(lines_spec, k as int).len(),
            forall|w: int|
                0 <= w < r@.len() ==> (#[trigger] r@[w]).0@ == parsed_stats(
                    lines_spec,
                    k as int,
                )[w].0 && r@[w].1 == parsed_stats(lines_spec, k as int)[w].1,
        decreases lines@.len() - k,
    {
        let line = &lines[k];
        proof {
            assert(line@ == lines_spec[k as int]);
        }
        let p1 = find_char(line, ' ');
        if p1 < line.len() {
            let rest_start = p1 + 1;
            let rest = vec_suffix(line, rest_start);
            let p2 = find_char(&rest, ' ');
            if p2 < rest.len() {
                let mtime_chars = vec_prefix(line, p1);
                let size_chars = vec_prefix(&rest, p2);
                let name_chars = vec_suffix(&rest, p2 + 1);
                match (parse_u64(mtime_chars.as_slice()), parse_u64(size_chars.as_slice())) {
                    (Some(mtime), Some(size)) => {
                        let name = string_of(name_chars.as_slice());
                        r.push((name, FileStat { size, mtime }));
                    },
                    _ => {},
                }
            }
        }
        k = k + 1;
    }
    proof {
        assert(k as int == lines_spec.len());
    }
    r
}

/// The first `n` characters of a character vector.
pub fn vec_prefix(cs: &Vec<char>, n: usize) -> (r: Vec<char>)
    requires
        n <= cs@.len(),
    ensures
        r@ == cs@.take(n as int),
{
    let mut r: Vec<char> = Vec::new();
    let mut i: usize = 0;
    while i < n
        invariant
            i <= n <= cs@.len(),
            r@ == cs@.take(i as int),
        decreases n - i,
    {
        r.push(cs[i]);
        i = i + 1;
        proof {
            assert(r@ =~= cs@.take(i as int));
        }
    }
    r
}

/// The characters of a vector from a position on.
pub fn vec_suffix(cs: &Vec<char>, from: usize) -> (r: Vec<char>)
    requires
        from <= cs@.len(),
    ensures
        r@ == cs@.skip(from as int),
{
    let mut r: Vec<char> = Vec::new();
    let mut i: usize = from;
    while i < cs.len()
        invariant
            from <= i <= cs@.len(),
            r@ == cs@.subrange(from as int, i as int),
        decreases cs@.len() - i,
    {
        r.push(cs[i]);
        i = i + 1;
        proof {
            assert(r@ =~= cs@.subrange(from as int, i as int));
        }
    }
    proof {
        assert(r@ =~= cs@.skip(from as int));
    }
    r
}

/// The record a path maps to in a stat table; where several records carry
/// one path, the latest wins.
pub open spec fn lookup_stat(
    table: Seq<(Seq<char>, FileStat)>,
    path: Seq<char>,
    n: int,
) -> Option<FileStat>
    decreases n,
{
    if n <= 0 {
        None
    } else if table[n - 1].0 == path {
        Some(table[n - 1].1)
    } else {
        lookup_stat(table, path, n - 1)
    }
}

/// The table a stat record vector denotes.
pub open spec fn stat_table_view(table: Seq<(String, FileStat)>) -> Seq<(Seq<char>, FileStat)> {
    table.map_values(|p: (String, FileStat)| (p.0@, p.1))
}

/// The stats of the requested paths that the table answers, in request
/// order, unanswered paths skipped.
pub open spec fn found_stats(
    table: Seq<(Seq<char>, FileStat)>,
    requested: Seq<Seq<char>>,
    k: int,
) -> Seq<FileStat>
    decreases k,
{
    if k <= 0 {
        Seq::empty()
    } else {
        let rest = found_stats(table, requested, k - 1);
        match lookup_stat(table, requested[k - 1], table.len() as int) {
            Some(stat) => rest.push(stat),
            None => rest,
        }
    }
}

/// The answered request count never exceeds the request count, and reaches
/// it exactly when every path is answered; then the answers line up with
/// the requests.
proof fn lemma_found_stats_len(
    table: Seq<(Seq<char>, FileStat)>,
    requested: Seq<Seq<char>>,
    k: int,
)
    requires
        k >= 0,
    ensures
        found_stats(table, requested, k).len() <= k,
        found_stats(table, requested, k).len() == k <==> (forall|w: int|
            0 <= w < k ==> lookup_stat(table, #[trigger] requested[w], table.len() as int)
                is Some),
        found_stats(table, requested, k).len() == k ==> forall|w: int|
            0 <= w < k ==> found_stats(table, requested, k)[w] == lookup_stat(
                table,
                #[trigger] requested[w],
                table.len() as int,
            )->0,
    decreases k,
{
    if k > 0 {
        lemma_found_stats_len(table, requested, k - 1);
    }
}

/// Order the stat table's answers by the requested paths.
///
/// Every requested path must be answered; a missing one makes the answer
/// count fall short of the request count, a protocol violation reported as
/// `StatCountMismatch`.
pub fn reorder_stats(requested: &Vec<String>, table: &Vec<(String, FileStat)>) -> (r: Result<
    Vec<FileStat>,
    StoreError,
>)
    ensures
        ({
            let tab = stat_table_view(table@);
            let req = requested.deep_view();
            &&& (r is Ok <==> forall|w: int|
                0 <= w < req.len() ==> lookup_stat(tab, #[trigger] req[w], tab.len() as int)
                    is Some)
            &&& (r is Ok ==> r->Ok_0@.len() == req.len() && forall|w: int|
                0 <= w < req.len() ==> r->Ok_0@[w] == lookup_stat(
                    tab,
                    #[trigger] req[w],
                    tab.len() as int,
                )->0)
            &&& (r is Err ==> (r->Err_0 matches StoreError::StatCountMismatch { expected, actual }
                && expected == req.len() && actual == found_stats(
                tab,
                req,
                req.len() as int,
            ).len()))
        }),
{
    let ghost tab = stat_table_view(table@);
    let ghost req = requested.deep_view();
    let mut found: Vec<FileStat> = Vec::new();
    let mut w: usize = 0;
    while w < requested.len()
        invariant
            w <= requested@.len(),
            tab == stat_table_view(table@),
            req == requested.deep_view(),
            found@ == found_stats(tab, req, w as int),
        decreases requested@.len() - w,
    {
        let path = &requested[w];
        proof {
            assert(req[w as int] == path@);
        }
        match lookup_stat_exec(table, path) {
            Some(stat) => {
                found.push(stat);
            },
            None => {},
        }
        w = w + 1;
    }
    proof {
        lemma_found_stats_len(tab, req, req.len() as int);
    }
    if found.len() != requested.len() {
        let actual = found.len();
        return Err(StoreError::StatCountMismatch { expected: requested.len(), actual });
    }
    Ok(found)
}

/// Find the latest record of a path in the stat table.
fn lookup_stat_exec(table: &Vec<(String, FileStat)>, path: &String) -> (r: Option<FileStat>)
    ensures
        r == lookup_stat(stat_table_view(table@), path@, table@.len() as int),
{
    let ghost tab = stat_table_view(table@);
    let mut found: Option<FileStat> = None;
    let mut n: usize = 0;
    while n < table.len()
        invariant
            n <= table@.len(),
            tab == stat_table_view(table@),
            found == lookup_stat(tab, path@, n as int),
        decreases table@.len() - n,
    {
        proof {
            assert(tab[n as int] == (table@[n as int].0@, table@[n as int].1));
        }
        if table[n].0 == *path {
            found = Some(table[n].1);
        }
        n = n + 1;
    }
    found
}

/// What one line of the store listing records: a path under the base
/// folder with exactly two further segments, the hash-named folder and
/// the file name.  Any other line is dropped.
pub open spec fn listing_entry(line: Seq<char>, base: Seq<char>) -> Option<(Seq<char>, Seq<char>)> {
    if line.len() > base.len() + 1 && line.take(base.len() as int) == base && line[base.len() as int]
        == '/' {
        let rest = line.skip(base.len() as int + 1);
        let p = char_pos(rest, '/');
        if p < rest.len() {
            let folder = rest.take(p);
            let name = rest.skip(p + 1);
            if folder.len() > 0 && name.len() > 0 && char_pos(name, '/') == name.len() {
                Some((folder, name))
            } else {
                None
            }
        } else {
            None
        }
    } else {
        None
    }
}

/// The store entries of the first `k` listing lines, in listing order.
pub open spec fn listing_entries(
    lines: Seq<Seq<char>>,
    base: Seq<char>,
    k: int,
) -> Seq<(Seq<char>, Seq<char>)>
    decreases k,
{
    if k <= 0 {
        Seq::empty()
    } else {
        let rest = listing_entries(lines, base, k - 1);
        match listing_entry(lines[k - 1], base) {
            Some(entry) => rest.push(entry),
            None => rest,
        }
    }
}

/// Read the remote listing into store paths, in listing order (the remote
/// site lists oldest first).  Each useful line is the base folder, then a
/// hash-named folder, then a file name.
pub fn parse_file_listing(stdout: &str, base: &str) -> (r: Vec<RemotePath>)
    ensures
        ({
            let entries = listing_entries(lines_of(stdout@), base@, lines_of(stdout@).len() as int);
            &&& r@.len() == entries.len()
            &&& forall|w: int|
                0 <= w < entries.len() ==> (#[trigger] r@[w]).folder@ == entries[w].0
                    && r@[w].name@ == entries[w].1
        }),
{
    let cs = chars_of(stdout);
    let lines = lines_vec(&cs);
    let ghost lines_spec = lines_of(stdout@);
    let base_chars = chars_of(base);
    let mut r: Vec<RemotePath> = Vec::new();
    let mut k: usize = 0;
    while k < lines.len()
        invariant
            k <= lines@.len(),
            lines.deep_view() == lines_spec,
            base_chars@ == base@,
            r@.len() == listing_entries(lines_spec, base@, k as int).len(),
            forall|w: int|
                0 <= w < r@.len() ==> (#[trigger] r@[w]).folder@ == listing_entries(
                    lines_spec,
                    base@,
                    k as int,
                )[w].0 && r@[w].name@ == listing_entries(lines_spec, base@, k as int)[w].1,
        decreases lines@.len() - k,
    {
        let line = &lines[k];
        proof {
            assert(line@ == lines_spec[k as int]);
        }
        if base_chars.len() < usize::MAX && line.len() > base_chars.len() + 1 {
            let prefix_ok = chars_match(line, &base_chars);
            if prefix_ok && line[base_chars.len()] == '/' {
                let rest = vec_suffix(line, base_chars.len() + 1);
                let p = find_char(&rest, '/');
                if p < rest.len() {
                    let folder_chars = vec_prefix(&rest, p);
                    let name_chars = vec_suffix(&rest, p + 1);
                    let no_more = find_char(&name_chars, '/');
                    if folder_chars.len() > 0 && name_chars.len() > 0 && no_more
                        == name_chars.len() {
                        let folder = string_of(folder_chars.as_slice());
                        let name = string_of(name_chars.as_slice());
                        r.push(RemotePath { folder, name });
                    }
                }
            }
        }
        k = k + 1;
    }
    proof {
        assert(k as int == lines_spec.len());
    }
    r
}

/// Whether a line starts with the given prefix.
fn chars_match(line: &Vec<char>, prefix: &Vec<char>) -> (r: bool)
    requires
        prefix@.len() <= line@.len(),
    ensures
        r == (line@.take(prefix@.len() as int) == prefix@),
{
    let mut i: usize = 0;
    while i < prefix.len()
        invariant
            i <= prefix@.len() <= line@.len(),
            forall|j: int| 0 <= j < i ==> line@[j] == prefix@[j],
        decreases prefix@.len() - i,
    {
        if line[i] != prefix[i] {
            proof {
                assert(line@.take(prefix@.len() as int)[i as int] == line@[i as int]);
            }
            return false;
        }
        i = i + 1;
    }
    proof {
        assert(line@.take(prefix@.len() as int) =~= prefix@);
    }
    true
}

} // verus!
