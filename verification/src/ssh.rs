//! SSH targets: parsing `user@host:port:/path` strings, rendering them
//! back, building the argument list for the client, quoting remote paths,
//! and classifying the client's error text.

use vstd::prelude::*;
use vstd::string::StrSliceExecFns;
use vstd::string::StringExecFns;
use crate::text::{
    all_digits, contains_ci, contains_sub_ci, dec_string, dec_val, index_of, parse_u16, spec_dec,
    spec_index_of, str_to_string, lemma_index_of,
};

verus! {

/// How long the client waits for a connection, in seconds.
pub const DEFAULT_TIMEOUT_SECS: u64 = 10;

/// What went wrong against a remote host.
#[derive(Debug, PartialEq)]
pub enum SshError {
    InvalidPath(String),
    ConnectionFailed(String),
    AuthenticationFailed(String),
    CommandFailed(String),
    FileNotFound(String),
    PermissionDenied(String),
    Timeout(u64),
    IoError(String),
}

impl SshError {
    /// Whether trying again can help: only failures to reach the host are
    /// worth a retry; bad credentials or a missing file are not.
    pub fn is_retryable(&self) -> (r: bool)
        ensures
            r == (self is ConnectionFailed || self is Timeout),
    {
        match self {
            SshError::ConnectionFailed(_) => true,
            SshError::Timeout(_) => true,
            _ => false,
        }
    }
}

/// Outcome of probing a connection.
#[derive(Debug, PartialEq)]
pub enum SshStatus {
    Connected,
    Disconnected,
    Error(String),
}

/// Ghost image of a parsed SSH target.
pub struct SshConnectionV {
    pub user: Option<Seq<char>>,
    pub host: Seq<char>,
    pub port: Option<u16>,
    pub path: Seq<char>,
}

/// A parsed SSH target: where to connect and which remote file to touch.
#[derive(Debug, PartialEq)]
pub struct SshConnection {
    pub user: Option<String>,
    pub host: String,
    pub port: Option<u16>,
    pub path: String,
}

impl View for SshConnection {
    type V = SshConnectionV;

    open spec fn view(&self) -> SshConnectionV {
        SshConnectionV {
            user: match self.user {
                Some(u) => Some(u@),
                None => None,
            },
            host: self.host@,
            port: self.port,
            path: self.path@,
        }
    }
}

/// An ASCII whitespace character.
pub open spec fn is_space(c: char) -> bool {
    c == ' ' || c == '\t' || c == '\n' || c == '\r'
}

pub open spec fn spec_trim_start(s: Seq<char>) -> Seq<char>
    decreases s.len(),
{
    if s.len() > 0 && is_space(s[0]) {
        spec_trim_start(s.drop_first())
    } else {
        s
    }
}

pub open spec fn spec_trim_end(s: Seq<char>) -> Seq<char>
    decreases s.len(),
{
    if s.len() > 0 && is_space(s.last()) {
        spec_trim_end(s.drop_last())
    } else {
        s
    }
}

/// `s` without leading and trailing ASCII whitespace.
pub open spec fn spec_trim(s: Seq<char>) -> Seq<char> {
    spec_trim_end(spec_trim_start(s))
}

proof fn lemma_trim_start_skip(s: Seq<char>, i: int)
    requires
        0 <= i <= s.len(),
        forall|j: int| 0 <= j < i ==> is_space(s[j]),
        i == s.len() || !is_space(s[i]),
    ensures
        spec_trim_start(s) == s.skip(i),
    decreases i,
{
    if i == 0 {
        assert(s.skip(0) =~= s);
    } else {
        assert(is_space(s[0]));
        let t = s.drop_first();
        assert forall|j: int| 0 <= j < i - 1 implies is_space(t[j]) by {
            assert(t[j] == s[j + 1]);
        }
        if i - 1 < t.len() {
            assert(t[i - 1] == s[i]);
        }
        lemma_trim_start_skip(t, i - 1);
        assert(t.skip(i - 1) =~= s.skip(i));
    }
}

proof fn lemma_trim_end_take(s: Seq<char>, j: int)
    requires
        0 <= j <= s.len(),
        forall|k: int| j <= k < s.len() ==> is_space(s[k]),
        j == 0 || !is_space(s[j - 1]),
    ensures
        spec_trim_end(s) == s.take(j),
    decreases s.len() - j,
{
    if j == s.len() {
        assert(s.take(j) =~= s);
    } else {
        assert(is_space(s.last()));
        let t = s.drop_last();
        lemma_trim_end_take(t, j);
        assert(t.take(j) =~= s.take(j));
    }
}

/// Removes leading and trailing ASCII whitespace.
pub fn trim_ascii(s: &str) -> (r: &str)
    ensures
        r@ == spec_trim(s@),
{
    let len = s.unicode_len();
    let mut a: usize = 0;
    while a < len
        invariant
            len == s@.len(),
            0 <= a <= len,
            forall|j: int| 0 <= j < a ==> is_space(s@[j]),
        ensures
            0 <= a <= len,
            forall|j: int| 0 <= j < a ==> is_space(s@[j]),
            a == len || !is_space(s@[a as int]),
        decreases len - a,
    {
        let c = s.get_char(a);
        if !(c == ' ' || c == '\t' || c == '\n' || c == '\r') {
            break;
        }
        a += 1;
    }
    let mut b: usize = len;
    while b > a
        invariant
            len == s@.len(),
            0 <= a <= b <= len,
            forall|j: int| 0 <= j < a ==> is_space(s@[j]),
            a == len || !is_space(s@[a as int]),
            forall|k: int| b <= k < len ==> is_space(s@[k]),
        ensures
            0 <= a <= b <= len,
            forall|k: int| b <= k < len ==> is_space(s@[k]),
            b == a || !is_space(s@[b - 1]),
        decreases b,
    {
        let c = s.get_char(b - 1);
        if !(c == ' ' || c == '\t' || c == '\n' || c == '\r') {
            break;
        }
        b -= 1;
    }
    let r = s.substring_char(a, b);
    proof {
        lemma_trim_start_skip(s@, a as int);
        let t = s@.skip(a as int);
        assert forall|k: int| (b - a) <= k < t.len() implies is_space(t[k]) by {
            assert(t[k] == s@[k + a]);
        }
        if b > a {
            assert(t[b - a - 1] == s@[b - 1]);
        }
        lemma_trim_end_take(t, b - a);
        assert(t.take(b - a) =~= s@.subrange(a as int, b as int));
    }
    r
}

/// Host, optional port and path read from the part after the user: either
/// a bracketed IPv6 host followed by `:port:path` or `:path`, or a bare
/// host where a digits-only field between the first two colons is a port.
pub open spec fn spec_parse_hpp(s: Seq<char>) -> Option<(Seq<char>, Option<u16>, Seq<char>)> {
    if s.len() > 0 && s[0] == '[' {
        let be = spec_index_of(s, ']');
        if be < s.len() {
            let ipv6 = s.subrange(1, be);
            let remaining = s.skip(be + 1);
            if !(remaining.len() > 0 && remaining[0] == ':') {
                None
            } else {
                let after = remaining.drop_first();
                let colon = spec_index_of(after, ':');
                if colon < after.len() {
                    let port_str = after.take(colon);
                    let path = after.skip(colon + 1);
                    if port_str.len() > 0 && all_digits(port_str) && dec_val(port_str)
                        <= u16::MAX as nat {
                        Some((ipv6, Some(dec_val(port_str) as u16), path))
                    } else {
                        None
                    }
                } else {
                    Some((ipv6, None, after))
                }
            }
        } else {
            None
        }
    } else {
        let first = spec_index_of(s, ':');
        if first == s.len() {
            None
        } else {
            let rest = s.skip(first + 1);
            let second_rel = spec_index_of(rest, ':');
            if second_rel == rest.len() {
                Some((s.take(first), None, rest))
            } else {
                let potential = rest.take(second_rel);
                if potential.len() > 0 && all_digits(potential) && dec_val(potential)
                    <= u16::MAX as nat {
                    Some((s.take(first), Some(dec_val(potential) as u16), rest.skip(
                        second_rel + 1,
                    )))
                } else {
                    Some((s.take(first), None, rest))
                }
            }
        }
    }
}

/// A parsed SSH target, or nothing when the text is not one.
pub open spec fn spec_parse_ssh(raw: Seq<char>) -> Option<SshConnectionV> {
    let s = spec_trim(raw);
    if s.len() == 0 {
        None
    } else {
        let at = spec_index_of(s, '@');
        if at < s.len() {
            let user = s.take(at);
            if user.len() == 0 {
                None
            } else {
                match spec_parse_hpp(s.skip(at + 1)) {
                    Some((h, p, pa)) => if h.len() == 0 || pa.len() == 0 {
                        None
                    } else {
                        Some(SshConnectionV { user: Some(user), host: h, port: p, path: pa })
                    },
                    None => None,
                }
            }
        } else {
            match spec_parse_hpp(s) {
                Some((h, p, pa)) => if h.len() == 0 || pa.len() == 0 {
                    None
                } else {
                    Some(SshConnectionV { user: None, host: h, port: p, path: pa })
                },
                None => None,
            }
        }
    }
}

impl SshConnection {
    /// A target with only a host and a path.
    pub fn new(host: String, path: String) -> (r: SshConnection)
        ensures
            r@ == (SshConnectionV { user: None, host: host@, port: None, path: path@ }),
    {
        SshConnection { user: None, host, port: None, path }
    }

    /// The same target with a user.
    pub fn with_user(self, user: String) -> (r: SshConnection)
        ensures
            r@ == (SshConnectionV {
                user: Some(user@),
                host: self@.host,
                port: self@.port,
                path: self@.path,
            }),
    {
        SshConnection { user: Some(user), ..self }
    }

    /// The same target with a port.
    pub fn with_port(self, port: u16) -> (r: SshConnection)
        ensures
            r@ == (SshConnectionV {
                user: self@.user,
                host: self@.host,
                port: Some(port),
                path: self@.path,
            }),
    {
        SshConnection { port: Some(port), ..self }
    }

    /// Reads a target of the shape `[user@]host[:port]:path`, with square
    /// brackets around an IPv6 host.  Empty user, host or path parts are
    /// rejected, as is text with no `:` separator at all.
    pub fn parse(ssh_path: &str) -> (r: Result<SshConnection, SshError>)
        ensures
            match r {
                Ok(c) => spec_parse_ssh(ssh_path@) == Some(c@),
                Err(e) => spec_parse_ssh(ssh_path@) is None && e is InvalidPath,
            },
    {
        let s = trim_ascii(ssh_path);
        let slen = s.unicode_len();
        if slen == 0 {
            return Err(SshError::InvalidPath(str_to_string("Empty path")));
        }
        let at = index_of(s, '@');
        match at {
            Some(i) => {
                let user = s.substring_char(0, i);
                if user.is_empty() {
                    proof {
                        assert(s@.take(i as int) =~= user@);
                    }
                    return Err(SshError::InvalidPath(str_to_string("User portion is empty")));
                }
                let remaining = s.substring_char(i + 1, slen);
                proof {
                    assert(remaining@ =~= s@.skip(i + 1));
                    assert(user@ =~= s@.take(i as int));
                }
                match Self::parse_host_port_path(remaining) {
                    Ok((host, port, path)) => {
                        if host.as_str().is_empty() {
                            return Err(SshError::InvalidPath(str_to_string("Host is empty")));
                        }
                        if path.as_str().is_empty() {
                            return Err(
                                SshError::InvalidPath(str_to_string("Path portion is empty")),
                            );
                        }
                        Ok(
                            SshConnection {
                                user: Some(str_to_string(user)),
                                host,
                                port,
                                path,
                            },
                        )
                    },
                    Err(e) => Err(e),
                }
            },
            None => {
                match Self::parse_host_port_path(s) {
                    Ok((host, port, path)) => {
                        if host.as_str().is_empty() {
                            return Err(SshError::InvalidPath(str_to_string("Host is empty")));
                        }
                        if path.as_str().is_empty() {
                            return Err(
                                SshError::InvalidPath(str_to_string("Path portion is empty")),
                            );
                        }
                        Ok(SshConnection { user: None, host, port, path })
                    },
                    Err(e) => Err(e),
                }
            },
        }
    }

    /// Splits the part after the user into host, optional port and path.
    pub fn parse_host_port_path(s: &str) -> (r: Result<(String, Option<u16>, String), SshError>)
        ensures
            match r {
                Ok((h, p, pa)) => spec_parse_hpp(s@) == Some((h@, p, pa@)),
                Err(e) => spec_parse_hpp(s@) is None && e is InvalidPath,
            },
    {
        let slen = s.unicode_len();
        if slen > 0 && s.get_char(0) == '[' {
            let be = index_of(s, ']');
            match be {
                Some(bi) => {
                    proof {
                        lemma_index_of(s@, ']');
                        assert(s@[bi as int] == ']');
                        assert(s@[0] == '[');
                        assert(bi >= 1);
                    }
                    let ipv6 = s.substring_char(1, bi);
                    let remaining = s.substring_char(bi + 1, slen);
                    proof {
                        assert(ipv6@ =~= s@.subrange(1, bi as int));
                        assert(remaining@ =~= s@.skip(bi + 1));
                    }
                    let rlen = remaining.unicode_len();
                    if !(rlen > 0 && remaining.get_char(0) == ':') {
                        return Err(
                            SshError::InvalidPath(str_to_string("Missing ':' after IPv6 host")),
                        );
                    }
                    let after = remaining.substring_char(1, rlen);
                    proof {
                        assert(after@ =~= remaining@.drop_first());
                    }
                    let alen = after.unicode_len();
                    let colon = index_of(after, ':');
                    match colon {
                        Some(ci) => {
                            let port_str = after.substring_char(0, ci);
                            let path = after.substring_char(ci + 1, alen);
                            proof {
                                assert(port_str@ =~= after@.take(ci as int));
                                assert(path@ =~= after@.skip(ci + 1));
                            }
                            match parse_u16(port_str) {
                                Some(port) => Ok(
                                    (str_to_string(ipv6), Some(port), str_to_string(path)),
                                ),
                                None => Err(SshError::InvalidPath(str_to_string("Invalid port"))),
                            }
                        },
                        None => {
                            Ok((str_to_string(ipv6), None, str_to_string(after)))
                        },
                    }
                },
                None => Err(SshError::InvalidPath(str_to_string("Unclosed IPv6 bracket"))),
            }
        } else {
            let first = index_of(s, ':');
            match first {
                None => Err(
                    SshError::InvalidPath(str_to_string("Missing ':' separator in SSH path")),
                ),
                Some(fi) => {
                    let host = s.substring_char(0, fi);
                    let rest = s.substring_char(fi + 1, slen);
                    proof {
                        assert(host@ =~= s@.take(fi as int));
                        assert(rest@ =~= s@.skip(fi + 1));
                    }
                    let rlen = rest.unicode_len();
                    let second = index_of(rest, ':');
                    match second {
                        None => Ok((str_to_string(host), None, str_to_string(rest))),
                        Some(si) => {
                            let potential = rest.substring_char(0, si);
                            proof {
                                assert(potential@ =~= rest@.take(si as int));
                            }
                            match parse_u16(potential) {
                                Some(port) => {
                                    let path = rest.substring_char(si + 1, rlen);
                                    proof {
                                        assert(path@ =~= rest@.skip(si + 1));
                                    }
                                    Ok((str_to_string(host), Some(port), str_to_string(path)))
                                },
                                None => Ok((str_to_string(host), None, str_to_string(rest))),
                            }
                        },
                    }
                },
            }
        }
    }
}

/// The `user@host` (or bare `host`) the client is pointed at.
pub open spec fn spec_ssh_target(c: SshConnectionV) -> Seq<char> {
    match c.user {
        Some(u) => u + "@"@ + c.host,
        None => c.host,
    }
}

/// The fixed argument list handed to the client: the port when one is set,
/// then batch mode and the host-key policy.
pub open spec fn spec_ssh_args(c: SshConnectionV) -> Seq<Seq<char>> {
    (match c.port {
        Some(p) => seq!["-p"@, spec_dec(p as nat)],
        None => Seq::empty(),
    }) + seq!["-o"@, "BatchMode=yes"@, "-o"@, "StrictHostKeyChecking=accept-new"@]
}

/// The canonical rendering of a target, the inverse of `parse` on its
/// output shape: `user@` when a user is set, then `host:port:path` or
/// `host:path`.
pub open spec fn spec_ssh_display(c: SshConnectionV) -> Seq<char> {
    (match c.user {
        Some(u) => u + "@"@,
        None => Seq::empty(),
    }) + c.host + (match c.port {
        Some(p) => ":"@ + spec_dec(p as nat),
        None => Seq::empty(),
    }) + ":"@ + c.path
}

impl SshConnection {
    /// Renders the host part the client connects to.
    pub fn ssh_target(&self) -> (r: String)
        ensures
            r@ == spec_ssh_target(self@),
    {
        let mut target = String::new();
        match &self.user {
            Some(u) => {
                target.append(u.as_str());
                target.append("@");
            },
            None => {},
        }
        target.append(self.host.as_str());
        proof {
            assert(target@ =~= spec_ssh_target(self@));
        }
        target
    }

    /// Builds the client's argument list.
    pub fn ssh_args(&self) -> (r: Vec<String>)
        ensures
            r.deep_view() == spec_ssh_args(self@),
    {
        let mut args: Vec<String> = Vec::new();
        match self.port {
            Some(p) => {
                args.push(str_to_string("-p"));
                args.push(dec_string(p as u32));
            },
            None => {},
        }
        args.push(str_to_string("-o"));
        args.push(str_to_string("BatchMode=yes"));
        args.push(str_to_string("-o"));
        args.push(str_to_string("StrictHostKeyChecking=accept-new"));
        proof {
            assert(args.deep_view() =~= spec_ssh_args(self@));
        }
        args
    }

    /// Renders the target in the shape `parse` reads.
    pub fn to_string(&self) -> (r: String)
        ensures
            r@ == spec_ssh_display(self@),
    {
        let mut out = String::new();
        match &self.user {
            Some(u) => {
                out.append(u.as_str());
                out.append("@");
            },
            None => {},
        }
        out.append(self.host.as_str());
        match self.port {
            Some(p) => {
                out.append(":");
                let ps = dec_string(p as u32);
                out.append(ps.as_str());
            },
            None => {},
        }
        out.append(":");
        out.append(self.path.as_str());
        proof {
            assert(out@ =~= spec_ssh_display(self@));
        }
        out
    }
}

/// How one character of a remote path is spelled inside single quotes: a
/// quote becomes `'"'"'`, everything else stands as it is.
pub open spec fn quote_rep(c: char) -> Seq<char> {
    if c == '\'' {
        seq!['\'', '"', '\'', '"', '\'']
    } else {
        seq![c]
    }
}

pub open spec fn spec_escaped_body(s: Seq<char>) -> Seq<char>
    decreases s.len(),
{
    if s.len() == 0 {
        Seq::empty()
    } else {
        spec_escaped_body(s.drop_last()) + quote_rep(s.last())
    }
}

/// A remote path as one single-quoted shell word.
pub open spec fn spec_shell_escaped(s: Seq<char>) -> Seq<char> {
    seq!['\''] + spec_escaped_body(s) + seq!['\'']
}

/// Quotes a remote path for the shell on the far side.
pub fn shell_escape(s: &str) -> (r: String)
    ensures
        r@ == spec_shell_escaped(s@),
{
    proof {
        reveal_strlit("'");
        reveal_strlit("'\"'\"'");
    }
    let mut out = String::from_str("'");
    let len = s.unicode_len();
    let mut i: usize = 0;
    proof {
        assert(out@ =~= seq!['\''] + spec_escaped_body(s@.take(0)));
    }
    while i < len
        invariant
            len == s@.len(),
            0 <= i <= len,
            "'"@ =~= seq!['\''],
            "'\"'\"'"@ =~= seq!['\'', '"', '\'', '"', '\''],
            out@ == seq!['\''] + spec_escaped_body(s@.take(i as int)),
        decreases len - i,
    {
        let c = s.get_char(i);
        if c == '\'' {
            out.append("'\"'\"'");
        } else {
            let piece = s.substring_char(i, i + 1);
            proof {
                assert(piece@ =~= seq![s@[i as int]]);
            }
            out.append(piece);
        }
        proof {
            assert(s@.take(i + 1).drop_last() =~= s@.take(i as int));
            assert(s@.take(i + 1).last() == s@[i as int]);
            assert(out@ =~= seq!['\''] + spec_escaped_body(s@.take(i + 1)));
        }
        i += 1;
    }
    out.append("'");
    proof {
        assert(s@.take(len as int) =~= s@);
        assert(out@ =~= spec_shell_escaped(s@));
    }
    out
}

/// Whether the text names a credentials problem.
pub open spec fn is_auth_text(t: Seq<char>) -> bool {
    contains_ci(t, "permission denied"@) || contains_ci(t, "publickey"@)
}

/// Whether the text names a missing remote file.
pub open spec fn is_not_found_text(t: Seq<char>) -> bool {
    contains_ci(t, "no such file"@) || contains_ci(t, "not found"@)
}

/// Whether the text names a failure to reach the host.
pub open spec fn is_connection_text(t: Seq<char>) -> bool {
    contains_ci(t, "connection refused"@) || contains_ci(t, "could not resolve"@) || contains_ci(
        t,
        "connection timed out"@,
    ) || contains_ci(t, "network is unreachable"@)
}

/// Whether the text names a timeout.
pub open spec fn is_timeout_text(t: Seq<char>) -> bool {
    contains_ci(t, "timed out"@)
}

/// Classifies the client's error text into the error taxonomy, most
/// specific first: credential complaints, then a missing file, then
/// failures to reach the host, then a bare timeout; anything else is a
/// failed command.  The payload carries the text itself.
pub fn parse_ssh_error(stderr: &str) -> (r: SshError)
    ensures
        (r is AuthenticationFailed <==> is_auth_text(stderr@)),
        (r is FileNotFound <==> !is_auth_text(stderr@) && is_not_found_text(stderr@)),
        (r is ConnectionFailed <==> !is_auth_text(stderr@) && !is_not_found_text(stderr@)
            && is_connection_text(stderr@)),
        (r is Timeout <==> !is_auth_text(stderr@) && !is_not_found_text(stderr@)
            && !is_connection_text(stderr@) && is_timeout_text(stderr@)),
        (r is CommandFailed <==> !is_auth_text(stderr@) && !is_not_found_text(stderr@)
            && !is_connection_text(stderr@) && !is_timeout_text(stderr@)),
        r matches SshError::Timeout(n) ==> n == DEFAULT_TIMEOUT_SECS,
        (r matches SshError::AuthenticationFailed(m) ==> m@ == stderr@),
        (r matches SshError::FileNotFound(m) ==> m@ == stderr@),
        (r matches SshError::ConnectionFailed(m) ==> m@ == stderr@),
        (r matches SshError::CommandFailed(m) ==> m@ == stderr@),
{
    if contains_sub_ci(stderr, "permission denied") || contains_sub_ci(stderr, "publickey") {
        SshError::AuthenticationFailed(str_to_string(stderr))
    } else if contains_sub_ci(stderr, "no such file") || contains_sub_ci(stderr, "not found") {
        SshError::FileNotFound(str_to_string(stderr))
    } else if contains_sub_ci(stderr, "connection refused") || contains_sub_ci(
        stderr,
        "could not resolve",
    ) || contains_sub_ci(stderr, "connection timed out") || contains_sub_ci(
        stderr,
        "network is unreachable",
    ) {
        SshError::ConnectionFailed(str_to_string(stderr))
    } else if contains_sub_ci(stderr, "timed out") {
        SshError::Timeout(DEFAULT_TIMEOUT_SECS)
    } else {
        SshError::CommandFailed(str_to_string(stderr))
    }
}

/// Reads the probe command's answer: the far side echoes a word saying
/// whether the file exists.
pub fn interpret_exists_output(output: &str) -> (r: bool)
    ensures
        r == (spec_trim(output@) == "exists"@),
{
    let trimmed = trim_ascii(output);
    crate::text::str_eq(trimmed, "exists")
}

/// Reads the connection probe's answer: the expected echo means the host
/// is reachable; anything else is reported as the error text it is.
pub fn interpret_probe_output(output: &str) -> (r: SshStatus)
    ensures
        spec_trim(output@) == "ok"@ ==> r is Connected,
        spec_trim(output@) != "ok"@ ==> (r matches SshStatus::Error(m) && m@ == "Unexpected response: "@
            + output@),
{
    let trimmed = trim_ascii(output);
    if crate::text::str_eq(trimmed, "ok") {
        SshStatus::Connected
    } else {
        let mut m = str_to_string("Unexpected response: ");
        m.append(output);
        SshStatus::Error(m)
    }
}

/// The remote command that reads a file.
pub fn remote_read_command(path: &str) -> (r: String)
    ensures
        r@ == "cat "@ + spec_shell_escaped(path@),
{
    let mut c = str_to_string("cat ");
    let quoted = shell_escape(path);
    c.append(quoted.as_str());
    c
}

/// The remote command that probes for a file.
pub fn remote_exists_command(path: &str) -> (r: String)
    ensures
        r@ == "test -f "@ + spec_shell_escaped(path@) + " && echo 'exists' || echo 'not_exists'"@,
{
    let mut c = str_to_string("test -f ");
    let quoted = shell_escape(path);
    c.append(quoted.as_str());
    c.append(" && echo 'exists' || echo 'not_exists'");
    c
}

/// The remote command that copies a file to its backup sibling.
pub fn remote_backup_command(path: &str, backup_path: &str) -> (r: String)
    ensures
        r@ == "cp "@ + spec_shell_escaped(path@) + " "@ + spec_shell_escaped(backup_path@),
{
    let mut c = str_to_string("cp ");
    let q1 = shell_escape(path);
    c.append(q1.as_str());
    c.append(" ");
    let q2 = shell_escape(backup_path);
    c.append(q2.as_str());
    c
}

/// Whether a failed attempt is tried again: only retryable errors, and
/// only while attempts remain.
pub fn should_retry(e: &SshError, attempt: u32, max_attempts: u32) -> (r: bool)
    ensures
        r == ((e is ConnectionFailed || e is Timeout) && attempt + 1 < max_attempts as int),
{
    e.is_retryable() && attempt < u32::MAX && attempt + 1 < max_attempts
}

/// The capped exponential backoff between attempts: starts at half a
/// second and doubles, never past one minute.
pub fn next_delay_ms(delay_ms: u64) -> (r: u64)
    ensures
        delay_ms * 2 <= 60000 ==> r == delay_ms * 2,
        delay_ms * 2 > 60000 ==> r == 60000,
{
    if delay_ms <= 30000 {
        delay_ms * 2
    } else {
        60000
    }
}

/// A target as plain fields, the shape the caller's transport layer trades
/// in.
#[derive(Debug, PartialEq)]
pub struct SshConnectionInfo {
    pub user: Option<String>,
    pub host: String,
    pub port: Option<u16>,
    pub path: String,
}

impl SshConnectionInfo {
    /// The connection these fields name.
    pub fn into_connection(self) -> (r: SshConnection)
        ensures
            r@ == (SshConnectionV {
                user: match self.user {
                    Some(u) => Some(u@),
                    None => None,
                },
                host: self.host@,
                port: self.port,
                path: self.path@,
            }),
    {
        SshConnection { user: self.user, host: self.host, port: self.port, path: self.path }
    }

    /// The plain fields of a connection.
    pub fn of_connection(conn: &SshConnection) -> (r: SshConnectionInfo)
        ensures
            r.user == conn.user,
            r.host@ == conn.host@,
            r.port == conn.port,
            r.path@ == conn.path@,
    {
        SshConnectionInfo {
            user: match &conn.user {
                Some(u) => Some(u.clone()),
                None => None,
            },
            host: conn.host.clone(),
            port: conn.port,
            path: conn.path.clone(),
        }
    }
}

/// A probe outcome as plain fields: a status word and the error text, if
/// any.
#[derive(Debug, PartialEq)]
pub struct SshStatusResult {
    pub status: String,
    pub error: Option<String>,
}

impl SshStatusResult {
    /// Renders a probe outcome.
    pub fn of_status(status: SshStatus) -> (r: SshStatusResult)
        ensures
            status is Connected ==> r.status@ == "connected"@ && r.error is None,
            status is Disconnected ==> r.status@ == "disconnected"@ && r.error is None,
            status matches SshStatus::Error(e) ==> r.status@ == "error"@ && (r.error matches Some(
                m,
            ) && m@ == e@),
    {
        match status {
            SshStatus::Connected => SshStatusResult {
                status: str_to_string("connected"),
                error: None,
            },
            SshStatus::Disconnected => SshStatusResult {
                status: str_to_string("disconnected"),
                error: None,
            },
            SshStatus::Error(e) => SshStatusResult { status: str_to_string("error"), error: Some(e) },
        }
    }
}

} // verus!
