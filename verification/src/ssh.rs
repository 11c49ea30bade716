//! What the `ssh` command line of a server is, how it is previewed, how an
//! ssh failure is explained, and how key files are recognised and described.
use vstd::prelude::*;

use crate::config::{
    first_set, port_of, DefaultsModel, Group, GroupModel, Server, ServerModel,
    Defaults, DEFAULT_PORT,
};
use crate::text::{
    opt_text, text_seq, char_vecs, chars_of, contains, decimal, decimal_string, has_substring, is_control, lowercase,
    split_chars, split_on, split_words, string_from_chars, to_lowercase, trim_chars, trimmed,
    words, control_char, lemma_map_push, lemma_take_succ,
};

verus! {

/// The algorithm and fingerprint of a public key, as `ssh-keygen -l` reports
/// them.
#[derive(Debug)]
pub struct KeyInfo {
    pub algorithm: String,
    pub fingerprint: String,
}

impl View for KeyInfo {
    type V = (Seq<char>, Seq<char>);

    /// The algorithm and the fingerprint.
    open spec fn view(&self) -> (Seq<char>, Seq<char>) {
        (self.algorithm@, self.fingerprint@)
    }
}

impl Clone for KeyInfo {
    fn clone(&self) -> (res: Self)
        ensures
            res@ == self@,
    {
        KeyInfo { algorithm: self.algorithm.clone(), fingerprint: self.fingerprint.clone() }
    }
}

/// The last line of `lines` that holds more than white space.
pub open spec fn last_nonblank(lines: Seq<Seq<char>>) -> Option<Seq<char>>
    decreases lines.len(),
{
    if lines.len() == 0 {
        None
    } else if trimmed(lines.last()).len() > 0 {
        Some(lines.last())
    } else {
        last_nonblank(lines.drop_last())
    }
}

/// The explanation of an ssh failure (exit status 255) from what ssh wrote
/// on stderr and its lowercase form `lower`: the first known cause whose
/// phrase occurs in `lower`, else the last non-blank line of `stderr`, else
/// a note that nothing was said.
pub open spec fn failure_text(stderr: Seq<char>, lower: Seq<char>) -> Seq<char> {
    if has_substring(lower, "could not resolve hostname"@) || has_substring(
        lower,
        "name or service not known"@,
    ) || has_substring(lower, "nodename nor servname"@) {
        "DNS lookup failed — host name could not be resolved."@
    } else if has_substring(lower, "connection refused"@) {
        "Connection refused — nothing is listening on the SSH port."@
    } else if has_substring(lower, "no route to host"@) {
        "No route to host."@
    } else if has_substring(lower, "network is unreachable"@) {
        "Network is unreachable."@
    } else if has_substring(lower, "operation timed out"@) || has_substring(
        lower,
        "connection timed out"@,
    ) {
        "Connection timed out — host did not respond."@
    } else if has_substring(lower, "remote host identification has changed"@) {
        "Host key changed — server presented a different key than known_hosts.\nIf this was expected (e.g. server rebuild): ssh-keygen -R <host>"@
    } else if has_substring(lower, "host key verification failed"@) {
        "Host key verification failed — known_hosts entry doesn't match.\nRemove the stale entry: ssh-keygen -R <host>"@
    } else if has_substring(lower, "too many authentication failures"@) {
        "Too many authentication failures — server rejected all offered keys."@
    } else if has_substring(lower, "permission denied"@) {
        "Authentication denied."@
    } else if has_substring(lower, "kex_exchange_identification"@) {
        "SSH handshake failed — peer did not respond as an SSH server."@
    } else if has_substring(lower, "bad configuration option"@) || has_substring(
        lower,
        "bad option"@,
    ) {
        "Invalid SSH option in the `flags` field."@
    } else if has_substring(lower, "identity file"@) && has_substring(lower, "not accessible"@) {
        "Identity file not accessible — key path is wrong or unreadable."@
    } else if has_substring(lower, "unprotected private key file"@) {
        "Private key file has too-permissive permissions.\nFix with: chmod 600 <key-file>"@
    } else {
        match last_nonblank(split_on(stderr, '\n')) {
            Some(l) => "ssh exited 255. Last message:\n  "@ + trimmed(l),
            None => "ssh exited 255 with no diagnostic output."@,
        }
    }
}

/// The explanation of an ssh failure from what ssh wrote on stderr.
pub open spec fn failure_message(stderr: Seq<char>) -> Seq<char> {
    failure_text(stderr, lowercase(stderr))
}

fn last_nonblank_line(lines: &Vec<Vec<char>>) -> (res: Option<Vec<char>>)
    ensures
        match res {
            Some(l) => last_nonblank(char_vecs(lines@)) == Some(l@),
            None => last_nonblank(char_vecs(lines@)) is None,
        },
{
    let mut k: usize = lines.len();
    assert(char_vecs(lines@).take(k as int) =~= char_vecs(lines@));
    while k > 0
        invariant
            k <= lines@.len(),
            last_nonblank(char_vecs(lines@)) == last_nonblank(char_vecs(lines@).take(k as int)),
        decreases k,
    {
        let t = trim_chars(&lines[k - 1]);
        assert(char_vecs(lines@).take(k as int).drop_last() =~= char_vecs(lines@).take(k - 1));
        if t.len() > 0 {
            let mut out: Vec<char> = Vec::new();
            let mut j: usize = 0;
            while j < lines[k - 1].len()
                invariant
                    0 < k <= lines@.len(),
                    j <= lines@[k - 1]@.len(),
                    out@ == lines@[k - 1]@.take(j as int),
                decreases lines@[k - 1]@.len() - j,
            {
                out.push(lines[k - 1][j]);
                assert(out@ =~= lines@[k - 1]@.take(j + 1));
                j = j + 1;
            }
            assert(out@ =~= lines@[k - 1]@);
            return Some(out);
        }
        k = k - 1;
    }
    assert(char_vecs(lines@).take(0) =~= Seq::<Seq<char>>::empty());
    None
}

/// Explains an ssh failure (exit status 255) from what ssh wrote on stderr.
pub fn classify_failure(stderr: &str) -> (res: String)
    ensures
        res@ == failure_message(stderr@),
{
    let lower = to_lowercase(stderr);
    explain_failure(stderr, lower.as_str())
}

/// Explains an ssh failure (exit status 255) from what ssh wrote on stderr,
/// given the lowercase form `l` of that text.
pub fn explain_failure(stderr: &str, l: &str) -> (res: String)
    ensures
        res@ == failure_text(stderr@, l@),
{
    if contains(l, "could not resolve hostname") || contains(l, "name or service not known")
        || contains(l, "nodename nor servname") {
        return String::from_str("DNS lookup failed — host name could not be resolved.");
    }
    if contains(l, "connection refused") {
        return String::from_str("Connection refused — nothing is listening on the SSH port.");
    }
    if contains(l, "no route to host") {
        return String::from_str("No route to host.");
    }
    if contains(l, "network is unreachable") {
        return String::from_str("Network is unreachable.");
    }
    if contains(l, "operation timed out") || contains(l, "connection timed out") {
        return String::from_str("Connection timed out — host did not respond.");
    }
    if contains(l, "remote host identification has changed") {
        return String::from_str(
            "Host key changed — server presented a different key than known_hosts.\nIf this was expected (e.g. server rebuild): ssh-keygen -R <host>",
        );
    }
    if contains(l, "host key verification failed") {
        return String::from_str(
            "Host key verification failed — known_hosts entry doesn't match.\nRemove the stale entry: ssh-keygen -R <host>",
        );
    }
    if contains(l, "too many authentication failures") {
        return String::from_str(
            "Too many authentication failures — server rejected all offered keys.",
        );
    }
    if contains(l, "permission denied") {
        return String::from_str("Authentication denied.");
    }
    if contains(l, "kex_exchange_identification") {
        return String::from_str("SSH handshake failed — peer did not respond as an SSH server.");
    }
    if contains(l, "bad configuration option") || contains(l, "bad option") {
        return String::from_str("Invalid SSH option in the `flags` field.");
    }
    if contains(l, "identity file") && contains(l, "not accessible") {
        return String::from_str("Identity file not accessible — key path is wrong or unreadable.");
    }
    if contains(l, "unprotected private key file") {
        return String::from_str(
            "Private key file has too-permissive permissions.\nFix with: chmod 600 <key-file>",
        );
    }
    let cs = chars_of(stderr);
    let lines = split_chars(&cs, '\n');
    match last_nonblank_line(&lines) {
        Some(line) => {
            let t = trim_chars(&line);
            let mut out = String::from_str("ssh exited 255. Last message:\n  ");
            let ts = string_from_chars(&t);
            out.append(ts.as_str());
            out
        },
        None => String::from_str("ssh exited 255 with no diagnostic output."),
    }
}

/// The text an optional value contributes: the value, or nothing.
pub open spec fn or_empty(o: Option<Seq<char>>) -> Seq<char> {
    match o {
        Some(s) => s,
        None => Seq::empty(),
    }
}

/// The one-line preview of the ssh command for a server, as shown in the
/// details pane: `ssh [user@]host[ -p port][ -i key][ flags]`, where the
/// port is shown only when it is not 22 and the flags only when not empty.
pub open spec fn preview(group: GroupModel, server: ServerModel, defaults: DefaultsModel) -> Seq<
    char,
> {
    let user = first_set(server.user, group.user, defaults.user);
    let key = first_set(server.key, group.key, defaults.key);
    let port = port_of(server, group, defaults);
    "ssh "@ + (match user {
        Some(u) => u + "@"@,
        None => Seq::empty(),
    }) + server.host + (if port != DEFAULT_PORT {
        " -p "@ + decimal(port as nat)
    } else {
        Seq::empty()
    }) + (match key {
        Some(k) => " -i "@ + k,
        None => Seq::empty(),
    }) + (match server.flags {
        Some(f) => if f.len() > 0 {
            " "@ + f
        } else {
            Seq::empty()
        },
        None => Seq::empty(),
    })
}

/// The ssh command line for a server, as one line of text.
pub fn command_preview(group: &Group, server: &Server, defaults: &Defaults) -> (res: String)
    ensures
        res@ == preview(group@, server@, defaults@),
{
    let user = server.resolved_user(group, defaults);
    let key = server.resolved_key(group, defaults);
    let port = server.resolved_port(group, defaults);
    let mut out = String::from_str("ssh ");
    let ghost p0 = out@;
    match &user {
        Some(u) => {
            out.append(u.as_str());
            out.append("@");
        },
        None => {},
    }
    let ghost p1 = out@;
    out.append(server.host.as_str());
    let ghost p2 = out@;
    if port != DEFAULT_PORT {
        out.append(" -p ");
        let d = decimal_string(port);
        out.append(d.as_str());
    }
    let ghost p3 = out@;
    match &key {
        Some(k) => {
            out.append(" -i ");
            out.append(k.as_str());
        },
        None => {},
    }
    let ghost p4 = out@;
    match &server.flags {
        Some(f) => {
            if !f.as_str().is_empty() {
                out.append(" ");
                out.append(f.as_str());
            }
        },
        None => {},
    }
    proof {
        let s = server@;
        let g = group@;
        let d = defaults@;
        let u = first_set(s.user, g.user, d.user);
        let k = first_set(s.key, g.key, d.key);
        let pt = port_of(s, g, d);
        let a = "ssh "@;
        let b = match u {
            Some(uu) => uu + "@"@,
            None => Seq::empty(),
        };
        let c = if pt != DEFAULT_PORT {
            " -p "@ + decimal(pt as nat)
        } else {
            Seq::<char>::empty()
        };
        let e = match k {
            Some(kk) => " -i "@ + kk,
            None => Seq::empty(),
        };
        let f = match s.flags {
            Some(ff) => if ff.len() > 0 {
                " "@ + ff
            } else {
                Seq::empty()
            },
            None => Seq::empty(),
        };
        assert(p1 =~= a + b);
        assert(p2 =~= a + b + s.host);
        assert(p3 =~= a + b + s.host + c);
        assert(p4 =~= a + b + s.host + c + e);
        assert(out@ =~= a + b + s.host + c + e + f);
    }
    out
}

/// `path` with a leading `~/` replaced by the home directory and a slash,
/// when the home directory is known.
pub open spec fn expanded(path: Seq<char>, home: Option<Seq<char>>) -> Seq<char> {
    if path.len() >= 2 && path[0] == '~' && path[1] == '/' && home is Some {
        home.unwrap() + "/"@ + path.skip(2)
    } else {
        path
    }
}

/// Expands a leading `~/` of `path` against the home directory `home`
/// (the value of `HOME`, when it is set).
pub fn expand_tilde(path: &str, home: &Option<String>) -> (res: String)
    ensures
        res@ == expanded(path@, opt_text(*home)),
{
    let cs = chars_of(path);
    if cs.len() >= 2 && cs[0] == '~' && cs[1] == '/' {
        match home {
            Some(h) => {
                let mut out = h.clone();
                out.append("/");
                let mut rest: Vec<char> = Vec::new();
                let mut i: usize = 2;
                while i < cs.len()
                    invariant
                        2 <= i <= cs@.len(),
                        rest@ == cs@.subrange(2, i as int),
                    decreases cs@.len() - i,
                {
                    rest.push(cs[i]);
                    assert(rest@ =~= cs@.subrange(2, i + 1));
                    i = i + 1;
                }
                let r = string_from_chars(&rest);
                out.append(r.as_str());
                assert(cs@.skip(2) =~= cs@.subrange(2, cs@.len() as int));
                return out;
            },
            None => {},
        }
    }
    path.to_owned()
}

/// The arguments given to `ssh` for a server: the target `[user@]host`, then
/// `-p port` when the port is not 22, then `-i key` (with `~/` expanded)
/// when a key is set, then the words of the flags.
pub open spec fn ssh_argv(
    group: GroupModel,
    server: ServerModel,
    defaults: DefaultsModel,
    home: Option<Seq<char>>,
) -> Seq<Seq<char>> {
    let user = first_set(server.user, group.user, defaults.user);
    let key = first_set(server.key, group.key, defaults.key);
    let port = port_of(server, group, defaults);
    seq![
        match user {
            Some(u) => u + "@"@ + server.host,
            None => server.host,
        },
    ] + (if port != DEFAULT_PORT {
        seq!["-p"@, decimal(port as nat)]
    } else {
        Seq::empty()
    }) + (match key {
        Some(k) => seq!["-i"@, expanded(k, home)],
        None => Seq::empty(),
    }) + (match server.flags {
        Some(f) => words(f),
        None => Seq::empty(),
    })
}

/// The arguments `ssh` is run with to connect to a server; `home` is the
/// home directory, used to expand a key path that starts with `~/`.
pub fn ssh_args(group: &Group, server: &Server, defaults: &Defaults, home: &Option<String>) -> (res:
    Vec<String>)
    ensures
        text_seq(res@) == ssh_argv(group@, server@, defaults@, opt_text(*home)),
{
    let user = server.resolved_user(group, defaults);
    let key = server.resolved_key(group, defaults);
    let port = server.resolved_port(group, defaults);
    let target = match &user {
        Some(u) => {
            let mut t = u.clone();
            t.append("@");
            t.append(server.host.as_str());
            t
        },
        None => server.host.clone(),
    };
    let mut args: Vec<String> = Vec::new();
    args.push(target);
    let ghost a1 = text_seq(args@);
    if port != DEFAULT_PORT {
        args.push(String::from_str("-p"));
        args.push(decimal_string(port));
    }
    let ghost a2 = text_seq(args@);
    match &key {
        Some(k) => {
            args.push(String::from_str("-i"));
            args.push(expand_tilde(k.as_str(), home));
        },
        None => {},
    }
    let ghost a3 = text_seq(args@);
    let ghost base = args@;
    match &server.flags {
        Some(f) => {
            let cs = chars_of(f.as_str());
            let ws = split_words(&cs);
            let n = ws.len();
            let mut i: usize = 0;
            while i < n
                invariant
                    i <= n,
                    n == ws@.len(),
                    args@.len() == base.len() + i,
                    text_seq(args@) == text_seq(base) + char_vecs(ws@).take(i as int),
                decreases n - i,
            {
                let w = string_from_chars(&ws[i]);
                let ghost before = args@;
                args.push(w);
                proof {
                    lemma_map_push(before, w, |s: String| s@);
                    lemma_take_succ(char_vecs(ws@), i as int);
                }
                assert(text_seq(args@) =~= text_seq(base) + char_vecs(ws@).take(i + 1));
                i = i + 1;
            }
            assert(char_vecs(ws@).take(n as int) =~= char_vecs(ws@));
        },
        None => {
            assert(text_seq(args@) =~= text_seq(base) + Seq::<Seq<char>>::empty());
        },
    }
    proof {
        let s = server@;
        let g = group@;
        let d = defaults@;
        let pt = port_of(s, g, d);
        let k = first_set(s.key, g.key, d.key);
        let u = first_set(s.user, g.user, d.user);
        let t = match u {
            Some(uu) => uu + "@"@ + s.host,
            None => s.host,
        };
        assert(a1 =~= seq![t]);
        let c = if pt != DEFAULT_PORT {
            seq!["-p"@, decimal(pt as nat)]
        } else {
            Seq::<Seq<char>>::empty()
        };
        assert(a2 =~= seq![t] + c);
        let e = match k {
            Some(kk) => seq!["-i"@, expanded(kk, opt_text(*home))],
            None => Seq::<Seq<char>>::empty(),
        };
        assert(a3 =~= seq![t] + c + e);
    }
    args
}

/// The index of the first `c` in `s`, or -1.
pub open spec fn index_of(s: Seq<char>, c: char) -> int
    decreases s.len(),
{
    if s.len() == 0 {
        -1
    } else if s[0] == c {
        0
    } else {
        let r = index_of(s.drop_first(), c);
        if r < 0 {
            -1
        } else {
            r + 1
        }
    }
}

/// The index of the last `c` in `s`, or -1.
pub open spec fn last_index_of(s: Seq<char>, c: char) -> int
    decreases s.len(),
{
    if s.len() == 0 {
        -1
    } else if s.last() == c {
        s.len() - 1
    } else {
        last_index_of(s.drop_last(), c)
    }
}

/// The algorithm named in parentheses at the end of `rest`, or nothing.
pub open spec fn parenthesized_tail(rest: Seq<char>) -> Seq<char> {
    let p = last_index_of(rest, '(');
    if rest.len() > 0 && rest.last() == ')' && p >= 0 {
        rest.subrange(p + 1, rest.len() - 1)
    } else {
        Seq::empty()
    }
}

/// What a line of `ssh-keygen -l` output says: `(algorithm, fingerprint)`
/// from `bits fingerprint comment (ALGORITHM)` on the first line (trimmed);
/// nothing when the output is empty or the line has fewer than two spaces.
pub open spec fn keygen_info(out: Seq<char>) -> Option<(Seq<char>, Seq<char>)> {
    if out.len() == 0 {
        None
    } else {
        let line = trimmed(split_on(out, '\n')[0]);
        let a = index_of(line, ' ');
        if a < 0 {
            None
        } else {
            let after = line.skip(a + 1);
            let b = index_of(after, ' ');
            if b < 0 {
                None
            } else {
                Some((parenthesized_tail(after.skip(b + 1)), after.take(b)))
            }
        }
    }
}

proof fn lemma_index_of_bounds(s: Seq<char>, c: char)
    ensures
        -1 <= index_of(s, c) < s.len(),
        index_of(s, c) >= 0 ==> s[index_of(s, c)] == c,
        forall|j: int| 0 <= j < s.len() && (index_of(s, c) < 0 || j < index_of(s, c)) ==> s[j] != c,
    decreases s.len(),
{
    if s.len() > 0 && s[0] != c {
        lemma_index_of_bounds(s.drop_first(), c);
        assert forall|j: int|
            0 <= j < s.len() && (index_of(s, c) < 0 || j < index_of(s, c)) implies s[j] != c by {
            if j > 0 {
                assert(s[j] == s.drop_first()[j - 1]);
            }
        }
    }
}

proof fn lemma_last_index_of_bounds(s: Seq<char>, c: char)
    ensures
        -1 <= last_index_of(s, c) < s.len(),
        last_index_of(s, c) >= 0 ==> s[last_index_of(s, c)] == c,
        forall|j: int| 0 <= j < s.len() && last_index_of(s, c) < j ==> s[j] != c,
    decreases s.len(),
{
    if s.len() > 0 && s.last() != c {
        lemma_last_index_of_bounds(s.drop_last(), c);
        assert forall|j: int| 0 <= j < s.len() && last_index_of(s, c) < j implies s[j] != c by {
            if j < s.len() - 1 {
                assert(s[j] == s.drop_last()[j]);
            }
        }
    }
}

proof fn lemma_index_of_is_first(s: Seq<char>, c: char, i: int)
    requires
        0 <= i < s.len(),
        s[i] == c,
        forall|j: int| 0 <= j < i ==> s[j] != c,
    ensures
        index_of(s, c) == i,
    decreases s.len(),
{
    if i > 0 {
        assert forall|j: int| 0 <= j < i - 1 implies s.drop_first()[j] != c by {
            assert(s.drop_first()[j] == s[j + 1]);
        }
        lemma_index_of_is_first(s.drop_first(), c, i - 1);
    }
}

proof fn lemma_index_of_none(s: Seq<char>, c: char)
    requires
        forall|j: int| 0 <= j < s.len() ==> s[j] != c,
    ensures
        index_of(s, c) == -1,
    decreases s.len(),
{
    if s.len() > 0 {
        assert forall|j: int| 0 <= j < s.len() - 1 implies s.drop_first()[j] != c by {
            assert(s.drop_first()[j] == s[j + 1]);
        }
        lemma_index_of_none(s.drop_first(), c);
    }
}

proof fn lemma_last_index_of_is_last(s: Seq<char>, c: char, i: int)
    requires
        -1 <= i < s.len(),
        i >= 0 ==> s[i] == c,
        forall|j: int| i < j < s.len() ==> s[j] != c,
    ensures
        last_index_of(s, c) == i,
    decreases s.len(),
{
    if s.len() > 0 && i < s.len() - 1 {
        assert forall|j: int| i < j < s.len() - 1 implies s.drop_last()[j] != c by {
            assert(s.drop_last()[j] == s[j]);
        }
        lemma_last_index_of_is_last(s.drop_last(), c, i);
    }
}

/// The position of the first `c` in `s` at or after `from`.
fn find_from(s: &Vec<char>, c: char, from: usize) -> (res: Option<usize>)
    requires
        from <= s@.len(),
    ensures
        match res {
            Some(i) => from <= i < s@.len() && s@[i as int] == c && forall|j: int|
                from <= j < i ==> s@[j] != c,
            None => forall|j: int| from <= j < s@.len() ==> s@[j] != c,
        },
{
    let mut i = from;
    while i < s.len()
        invariant
            from <= i <= s@.len(),
            forall|j: int| from <= j < i ==> s@[j] != c,
        decreases s@.len() - i,
    {
        if s[i] == c {
            return Some(i);
        }
        i = i + 1;
    }
    None
}

/// The position of the last `c` in `s`.
fn find_last(s: &Vec<char>, c: char) -> (res: Option<usize>)
    ensures
        match res {
            Some(i) => i < s@.len() && s@[i as int] == c && forall|j: int|
                i < j < s@.len() ==> s@[j] != c,
            None => forall|j: int| 0 <= j < s@.len() ==> s@[j] != c,
        },
{
    let mut p: usize = s.len();
    while p > 0
        invariant
            p <= s@.len(),
            forall|j: int| p <= j < s@.len() ==> s@[j] != c,
        decreases p,
    {
        if s[p - 1] == c {
            return Some(p - 1);
        }
        p = p - 1;
    }
    None
}

fn slice_chars(s: &Vec<char>, from: usize, to: usize) -> (res: Vec<char>)
    requires
        from <= to <= s@.len(),
    ensures
        res@ == s@.subrange(from as int, to as int),
{
    let mut out: Vec<char> = Vec::new();
    let mut i = from;
    while i < to
        invariant
            from <= i <= to <= s@.len(),
            out@ == s@.subrange(from as int, i as int),
        decreases to - i,
    {
        out.push(s[i]);
        assert(out@ =~= s@.subrange(from as int, i + 1));
        i = i + 1;
    }
    out
}

/// Reads the algorithm and fingerprint from the output of `ssh-keygen -l`.
pub fn parse_keygen_line(out: &str) -> (res: Option<KeyInfo>)
    ensures
        match (res, keygen_info(out@)) {
            (Some(k), Some((alg, fp))) => k.algorithm@ == alg && k.fingerprint@ == fp,
            (None, None) => true,
            _ => false,
        },
{
    let cs = chars_of(out);
    if cs.len() == 0 {
        return None;
    }
    let pieces = split_chars(&cs, '\n');
    assert(char_vecs(pieces@).len() == pieces@.len());
    assert(pieces@.len() > 0);
    assert(char_vecs(pieces@)[0] == pieces@[0]@);
    let line = trim_chars(&pieces[0]);
    let ln = line.len();
    let ghost l = line@;
    let a = match find_from(&line, ' ', 0) {
        Some(a) => a,
        None => {
            proof {
                lemma_index_of_none(l, ' ');
            }
            return None;
        },
    };
    proof {
        lemma_index_of_is_first(l, ' ', a as int);
    }
    let b = match find_from(&line, ' ', a + 1) {
        Some(b) => b,
        None => {
            proof {
                let after = l.skip(a + 1);
                assert forall|j: int| 0 <= j < after.len() implies after[j] != ' ' by {
                    assert(after[j] == l[a + 1 + j]);
                }
                lemma_index_of_none(after, ' ');
            }
            return None;
        },
    };
    proof {
        let after = l.skip(a + 1);
        assert forall|j: int| 0 <= j < b - a - 1 implies after[j] != ' ' by {
            assert(after[j] == l[a + 1 + j]);
        }
        assert(after[b - a - 1] == l[b as int]);
        lemma_index_of_is_first(after, ' ', b - a - 1);
    }
    let fingerprint = slice_chars(&line, a + 1, b);
    let rest = slice_chars(&line, b + 1, line.len());
    let rn = rest.len();
    let mut algorithm: Vec<char> = Vec::new();
    if rn > 0 && rest[rn - 1] == ')' {
        match find_last(&rest, '(') {
            Some(p) => {
                proof {
                    lemma_last_index_of_is_last(rest@, '(', p as int);
                }
                algorithm = slice_chars(&rest, p + 1, rn - 1);
            },
            None => {
                proof {
                    lemma_last_index_of_is_last(rest@, '(', -1);
                }
            },
        }
    }
    proof {
        let after = l.skip(a + 1);
        assert(fingerprint@ =~= after.take(b - a - 1));
        assert(rest@ =~= after.skip(b - a - 1 + 1));
    }
    Some(
        KeyInfo {
            algorithm: string_from_chars(&algorithm),
            fingerprint: string_from_chars(&fingerprint),
        },
    )
}

/// A directory entry of `~/.ssh` as the key scan sees it: its file name,
/// whether it is a regular file, and its first line when it could be read.
#[derive(Debug)]
pub struct KeyCandidate {
    pub name: String,
    pub is_file: bool,
    pub first_line: Option<String>,
}

/// `p` is a prefix of `s`.
pub open spec fn starts_with(s: Seq<char>, p: Seq<char>) -> bool {
    p.len() <= s.len() && s.take(p.len() as int) == p
}

/// `p` is a suffix of `s`.
pub open spec fn ends_with(s: Seq<char>, p: Seq<char>) -> bool {
    p.len() <= s.len() && s.skip(s.len() - p.len()) == p
}

/// An entry of `~/.ssh` that is taken for a private key: a regular file,
/// not hidden, not a `.pub` file, without control characters in its name,
/// whose first line starts with `-----BEGIN`.
pub open spec fn is_private_key_entry(name: Seq<char>, is_file: bool, first_line: Option<
    Seq<char>,
>) -> bool {
    &&& is_file
    &&& !(name.len() > 0 && name[0] == '.')
    &&& !ends_with(name, ".pub"@)
    &&& forall|j: int| 0 <= j < name.len() ==> !control_char(#[trigger] name[j])
    &&& match first_line {
        Some(l) => starts_with(l, "-----BEGIN"@),
        None => false,
    }
}

/// Code-point order on texts: a proper prefix comes first.
pub open spec fn text_le(a: Seq<char>, b: Seq<char>) -> bool
    decreases a.len(),
{
    if a.len() == 0 {
        true
    } else if b.len() == 0 {
        false
    } else if a[0] != b[0] {
        (a[0] as u32) < (b[0] as u32)
    } else {
        text_le(a.drop_first(), b.drop_first())
    }
}

/// `[String]::sort`: the same strings, ascending in code-point order (which
/// is the byte order of their UTF-8 encodings, the order of `String`).
#[verifier::external_body]
fn sort_strings(v: &mut Vec<String>)
    ensures
        text_seq(final(v)@).to_multiset() == text_seq(old(v)@).to_multiset(),
        final(v)@.len() == old(v)@.len(),
        forall|i: int, j: int|
            0 <= i < j < final(v)@.len() ==> text_le(final(v)@[i]@, final(v)@[j]@),
{
    v.sort();
}

fn text_eq(a: &Vec<char>, p: &str) -> (r: bool)
    ensures
        r == (a@ == p@),
{
    let q = chars_of(p);
    if a.len() != q.len() {
        assert(a@.len() != p@.len());
        return false;
    }
    let mut i: usize = 0;
    while i < a.len()
        invariant
            i <= a@.len(),
            a@.len() == q@.len(),
            q@ == p@,
            forall|j: int| 0 <= j < i ==> a@[j] == q@[j],
        decreases a@.len() - i,
    {
        if a[i] != q[i] {
            assert(a@[i as int] != q@[i as int]);
            return false;
        }
        i = i + 1;
    }
    assert(a@ =~= q@);
    true
}

fn is_key_entry(c: &KeyCandidate) -> (r: bool)
    ensures
        r == is_private_key_entry(c.name@, c.is_file, opt_text(c.first_line)),
{
    if !c.is_file {
        return false;
    }
    let name = chars_of(c.name.as_str());
    let n = name.len();
    if n > 0 && name[0] == '.' {
        return false;
    }
    proof {
        reveal_strlit(".pub");
        reveal_strlit("-----BEGIN");
    }
    if n >= 4 {
        let tail = slice_chars(&name, n - 4, n);
        if text_eq(&tail, ".pub") {
            assert(name@.skip(n - 4) =~= tail@);
            return false;
        }
        assert(name@.skip(n - 4) =~= tail@);
    }
    let mut i: usize = 0;
    while i < n
        invariant
            i <= n,
            n == name@.len(),
            name@ == c.name@,
            forall|j: int| 0 <= j < i ==> !control_char(#[trigger] name@[j]),
        decreases n - i,
    {
        if is_control(name[i]) {
            assert(control_char(name@[i as int]));
            return false;
        }
        i = i + 1;
    }
    match &c.first_line {
        Some(l) => {
            let lc = chars_of(l.as_str());
            if lc.len() < 10 {
                return false;
            }
            let head = slice_chars(&lc, 0, 10);
            assert(lc@.take(10) =~= head@);
            text_eq(&head, "-----BEGIN")
        },
        None => false,
    }
}

/// The private keys among the entries of `~/.ssh`, each as `~/.ssh/NAME`,
/// sorted.
pub fn select_private_keys(entries: &Vec<KeyCandidate>) -> (res: Vec<String>)
    ensures
        text_seq(res@).to_multiset() == entries@.filter(
            |c: KeyCandidate| is_private_key_entry(c.name@, c.is_file, opt_text(c.first_line)),
        ).map_values(|c: KeyCandidate| "~/.ssh/"@ + c.name@).to_multiset(),
        forall|i: int, j: int| 0 <= i < j < res@.len() ==> text_le(res@[i]@, res@[j]@),
{
    let ghost pred = |c: KeyCandidate| is_private_key_entry(c.name@, c.is_file, opt_text(c.first_line));
    let ghost f = |c: KeyCandidate| "~/.ssh/"@ + c.name@;
    let mut keys: Vec<String> = Vec::new();
    let n = entries.len();
    let mut i: usize = 0;
    while i < n
        invariant
            i <= n,
            n == entries@.len(),
            pred == (|c: KeyCandidate| is_private_key_entry(c.name@, c.is_file, opt_text(c.first_line))),
            f == (|c: KeyCandidate| "~/.ssh/"@ + c.name@),
            text_seq(keys@) == entries@.take(i as int).filter(pred).map_values(f),
        decreases n - i,
    {
        let e = &entries[i];
        proof {
            assert(entries@.take(i + 1).last() == entries@[i as int]);
            assert(*e == entries@[i as int]);
            lemma_take_succ(entries@, i as int);
            assert(entries@.take(i + 1).drop_last() =~= entries@.take(i as int));
            reveal_with_fuel(Seq::<_>::filter, 1);
            assert(entries@.take(i + 1).filter(pred) == if pred(entries@[i as int]) {
                entries@.take(i as int).filter(pred).push(entries@[i as int])
            } else {
                entries@.take(i as int).filter(pred)
            });
        }
        if is_key_entry(e) {
            let mut k = String::from_str("~/.ssh/");
            k.append(e.name.as_str());
            assert(k@ == "~/.ssh/"@ + e.name@);
            assert(k@ == f(entries@[i as int]));
            let ghost before = keys@;
            keys.push(k);
            proof {
                lemma_map_push(before, k, |s: String| s@);
                lemma_map_push(entries@.take(i as int).filter(pred), entries@[i as int], f);
            }
        } else {

        }
        i = i + 1;
    }
    assert(entries@.take(n as int) =~= entries@);
    sort_strings(&mut keys);
    keys
}

} // verus!
