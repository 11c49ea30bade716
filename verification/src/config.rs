//! The host configuration: defaults, groups and servers, the resolution of
//! user, key and port, and the cleaning of text read from a config file.
use vstd::prelude::*;

use crate::text::{
    chars_of, control_char, is_control, lemma_map_push, lemma_take_succ, opt_text, string_from_chars, text_seq,
};

verus! {

/// The whole configuration file.
#[derive(Debug)]
pub struct Config {
    pub defaults: Defaults,
    pub groups: Vec<Group>,
}

/// Settings that apply when neither the server nor its group sets them.
#[derive(Debug)]
pub struct Defaults {
    pub user: Option<String>,
    pub key: Option<String>,
    pub port: Option<u16>,
}

/// A named group of servers.
#[derive(Debug)]
pub struct Group {
    pub name: String,
    pub icon: Option<String>,
    pub user: Option<String>,
    pub key: Option<String>,
    pub port: Option<u16>,
    pub servers: Vec<Server>,
}

/// One host that can be connected to.
#[derive(Debug)]
pub struct Server {
    pub name: String,
    pub host: String,
    pub user: Option<String>,
    pub key: Option<String>,
    pub port: Option<u16>,
    pub flags: Option<String>,
    pub tags: Vec<String>,
    pub description: Option<String>,
}

/// Mathematical model of `Defaults`.
pub struct DefaultsModel {
    pub user: Option<Seq<char>>,
    pub key: Option<Seq<char>>,
    pub port: Option<u16>,
}

/// Mathematical model of `Server`.
pub struct ServerModel {
    pub name: Seq<char>,
    pub host: Seq<char>,
    pub user: Option<Seq<char>>,
    pub key: Option<Seq<char>>,
    pub port: Option<u16>,
    pub flags: Option<Seq<char>>,
    pub tags: Seq<Seq<char>>,
    pub description: Option<Seq<char>>,
}

/// Mathematical model of `Group`.
pub struct GroupModel {
    pub name: Seq<char>,
    pub icon: Option<Seq<char>>,
    pub user: Option<Seq<char>>,
    pub key: Option<Seq<char>>,
    pub port: Option<u16>,
    pub servers: Seq<ServerModel>,
}

/// Mathematical model of `Config`.
pub struct ConfigModel {
    pub defaults: DefaultsModel,
    pub groups: Seq<GroupModel>,
}

impl View for Defaults {
    type V = DefaultsModel;

    open spec fn view(&self) -> DefaultsModel {
        DefaultsModel { user: opt_text(self.user), key: opt_text(self.key), port: self.port }
    }
}

impl View for Server {
    type V = ServerModel;

    open spec fn view(&self) -> ServerModel {
        ServerModel {
            name: self.name@,
            host: self.host@,
            user: opt_text(self.user),
            key: opt_text(self.key),
            port: self.port,
            flags: opt_text(self.flags),
            tags: text_seq(self.tags@),
            description: opt_text(self.description),
        }
    }
}

/// The models of a sequence of servers.
pub open spec fn server_models(v: Seq<Server>) -> Seq<ServerModel> {
    v.map_values(|s: Server| s@)
}

impl View for Group {
    type V = GroupModel;

    open spec fn view(&self) -> GroupModel {
        GroupModel {
            name: self.name@,
            icon: opt_text(self.icon),
            user: opt_text(self.user),
            key: opt_text(self.key),
            port: self.port,
            servers: server_models(self.servers@),
        }
    }
}

/// The models of a sequence of groups.
pub open spec fn group_models(v: Seq<Group>) -> Seq<GroupModel> {
    v.map_values(|g: Group| g@)
}

/// The number of servers in all the groups (the host count).
pub open spec fn total_servers(groups: Seq<GroupModel>) -> int
    decreases groups.len(),
{
    if groups.len() == 0 {
        0
    } else {
        total_servers(groups.drop_last()) + groups.last().servers.len()
    }
}

/// The sizes of a configuration's lists fit in `usize`, as they do for any
/// configuration held in memory.
pub open spec fn sizes_fit(groups: Seq<GroupModel>) -> bool {
    &&& groups.len() <= usize::MAX
    &&& forall|i: int| 0 <= i < groups.len() ==> #[trigger] groups[i].servers.len() <= usize::MAX
}

/// The sizes of a configuration held in memory fit in `usize`.
pub proof fn lemma_sizes_fit(v: &Vec<Group>)
    ensures
        sizes_fit(group_models(v@)),
{
    assert(v.len() == v@.len());
    assert forall|i: int| 0 <= i < group_models(v@).len() implies #[trigger] group_models(
        v@,
    )[i].servers.len() <= usize::MAX by {
        assert(v@[i].servers.len() == v@[i].servers@.len());
    }
}

impl View for Config {
    type V = ConfigModel;

    open spec fn view(&self) -> ConfigModel {
        ConfigModel { defaults: self.defaults@, groups: group_models(self.groups@) }
    }
}

/// A copy of an optional string.
pub fn copy_opt(o: &Option<String>) -> (res: Option<String>)
    ensures
        opt_text(res) == opt_text(*o),
{
    match o {
        Some(s) => Some(s.clone()),
        None => None,
    }
}

/// A copy of a list of strings.
pub fn copy_strings(v: &Vec<String>) -> (res: Vec<String>)
    ensures
        text_seq(res@) == text_seq(v@),
{
    let mut res: Vec<String> = Vec::new();
    let n = v.len();
    let mut i: usize = 0;
    while i < n
        invariant
            i <= n,
            n == v@.len(),
            text_seq(res@) == text_seq(v@).take(i as int),
        decreases n - i,
    {
        let ghost before = res@;
        let x = v[i].clone();
        assert(x@ == v@[i as int]@);
        res.push(x);
        assert(res@ == before.push(x));
        proof {
            lemma_map_push(before, x, |s: String| s@);
            lemma_take_succ(text_seq(v@), i as int);
        }
        i = i + 1;
    }
    assert(text_seq(v@).take(n as int) =~= text_seq(v@));
    res
}

impl Clone for Defaults {
    fn clone(&self) -> (res: Self)
        ensures
            res@ == self@,
    {
        Defaults { user: copy_opt(&self.user), key: copy_opt(&self.key), port: self.port }
    }
}

impl Clone for Server {
    fn clone(&self) -> (res: Self)
        ensures
            res@ == self@,
    {
        Server {
            name: self.name.clone(),
            host: self.host.clone(),
            user: copy_opt(&self.user),
            key: copy_opt(&self.key),
            port: self.port,
            flags: copy_opt(&self.flags),
            tags: copy_strings(&self.tags),
            description: copy_opt(&self.description),
        }
    }
}

/// A copy of a list of servers.
pub fn copy_servers(v: &Vec<Server>) -> (res: Vec<Server>)
    ensures
        server_models(res@) == server_models(v@),
{
    let mut res: Vec<Server> = Vec::new();
    let n = v.len();
    let mut i: usize = 0;
    while i < n
        invariant
            i <= n,
            n == v@.len(),
            server_models(res@) == server_models(v@).take(i as int),
        decreases n - i,
    {
        let ghost before = res@;
        let x = v[i].clone();
        assert(x@ == v@[i as int]@);
        res.push(x);
        assert(res@ == before.push(x));
        proof {
            lemma_map_push(before, x, |s: Server| s@);
            lemma_take_succ(server_models(v@), i as int);
        }
        i = i + 1;
    }
    assert(server_models(v@).take(n as int) =~= server_models(v@));
    res
}

impl Clone for Group {
    fn clone(&self) -> (res: Self)
        ensures
            res@ == self@,
    {
        Group {
            name: self.name.clone(),
            icon: copy_opt(&self.icon),
            user: copy_opt(&self.user),
            key: copy_opt(&self.key),
            port: self.port,
            servers: copy_servers(&self.servers),
        }
    }
}

/// A copy of a list of groups.
pub fn copy_groups(v: &Vec<Group>) -> (res: Vec<Group>)
    ensures
        group_models(res@) == group_models(v@),
{
    let mut res: Vec<Group> = Vec::new();
    let n = v.len();
    let mut i: usize = 0;
    while i < n
        invariant
            i <= n,
            n == v@.len(),
            group_models(res@) == group_models(v@).take(i as int),
        decreases n - i,
    {
        let ghost before = res@;
        let x = v[i].clone();
        assert(x@ == v@[i as int]@);
        res.push(x);
        assert(res@ == before.push(x));
        proof {
            lemma_map_push(before, x, |g: Group| g@);
            lemma_take_succ(group_models(v@), i as int);
        }
        i = i + 1;
    }
    assert(group_models(v@).take(n as int) =~= group_models(v@));
    res
}

impl Clone for Config {
    fn clone(&self) -> (res: Self)
        ensures
            res@ == self@,
    {
        Config { defaults: self.defaults.clone(), groups: copy_groups(&self.groups) }
    }
}

impl Default for Defaults {
    fn default() -> (res: Self)
        ensures
            res@ == (DefaultsModel { user: None, key: None, port: None }),
    {
        Defaults { user: None, key: None, port: None }
    }
}

impl Default for Config {
    fn default() -> (res: Self)
        ensures
            res@.defaults == (DefaultsModel { user: None, key: None, port: None }),
            res@.groups.len() == 0,
    {
        Config { defaults: Defaults::default(), groups: Vec::new() }
    }
}

/// The first of three optional values that is set.
pub open spec fn first_set<T>(a: Option<T>, b: Option<T>, c: Option<T>) -> Option<T> {
    if a is Some {
        a
    } else if b is Some {
        b
    } else {
        c
    }
}

/// The SSH port used when neither the server, its group nor the defaults
/// set one.
pub const DEFAULT_PORT: u16 = 22;

/// The port a server is reached on: the server's own, else its group's,
/// else the defaults', else 22 (most specific wins).
pub open spec fn port_of(server: ServerModel, group: GroupModel, defaults: DefaultsModel) -> u16 {
    match first_set(server.port, group.port, defaults.port) {
        Some(p) => p,
        None => DEFAULT_PORT,
    }
}

impl Server {
    /// The user to log in as: the server's, else the group's, else the
    /// defaults' (most specific wins).
    pub fn resolved_user(&self, group: &Group, defaults: &Defaults) -> (res: Option<String>)
        ensures
            opt_text(res) == first_set(self@.user, group@.user, defaults@.user),
    {
        match &self.user {
            Some(u) => Some(u.clone()),
            None => match &group.user {
                Some(u) => Some(u.clone()),
                None => copy_opt(&defaults.user),
            },
        }
    }

    /// The identity file: the server's, else the group's, else the
    /// defaults' (most specific wins).
    pub fn resolved_key(&self, group: &Group, defaults: &Defaults) -> (res: Option<String>)
        ensures
            opt_text(res) == first_set(self@.key, group@.key, defaults@.key),
    {
        match &self.key {
            Some(k) => Some(k.clone()),
            None => match &group.key {
                Some(k) => Some(k.clone()),
                None => copy_opt(&defaults.key),
            },
        }
    }

    /// The port: the server's, else the group's, else the defaults', else
    /// 22 (most specific wins).
    pub fn resolved_port(&self, group: &Group, defaults: &Defaults) -> (res: u16)
        ensures
            res == port_of(self@, group@, defaults@),
    {
        match self.port {
            Some(p) => p,
            None => match group.port {
                Some(p) => p,
                None => match defaults.port {
                    Some(p) => p,
                    None => DEFAULT_PORT,
                },
            },
        }
    }
}

/// A control character other than tab: one that could tamper with a
/// terminal when printed.
pub open spec fn unsafe_control(c: char) -> bool {
    control_char(c) && c != '\t'
}

/// `s` with every unsafe control character replaced by `?`.
pub open spec fn sanitized(s: Seq<char>) -> Seq<char> {
    s.map_values(|c: char| if unsafe_control(c) { '?' } else { c })
}

/// `sanitized` applied to an optional text.
pub open spec fn sanitized_opt(o: Option<Seq<char>>) -> Option<Seq<char>> {
    match o {
        Some(s) => Some(sanitized(s)),
        None => None,
    }
}

/// `sanitized` applied to every text of a server (its port is kept).
pub open spec fn sanitized_server(s: ServerModel) -> ServerModel {
    ServerModel {
        name: sanitized(s.name),
        host: sanitized(s.host),
        user: sanitized_opt(s.user),
        key: sanitized_opt(s.key),
        port: s.port,
        flags: sanitized_opt(s.flags),
        tags: s.tags.map_values(|t: Seq<char>| sanitized(t)),
        description: sanitized_opt(s.description),
    }
}

/// `sanitized` applied to every text of a group and of its servers.
pub open spec fn sanitized_group(g: GroupModel) -> GroupModel {
    GroupModel {
        name: sanitized(g.name),
        icon: sanitized_opt(g.icon),
        user: sanitized_opt(g.user),
        key: sanitized_opt(g.key),
        port: g.port,
        servers: g.servers.map_values(|s: ServerModel| sanitized_server(s)),
    }
}

/// `sanitized` applied to every text of a configuration: the defaults' user
/// and key, and every group. Ports are kept.
pub open spec fn sanitized_config(c: ConfigModel) -> ConfigModel {
    ConfigModel {
        defaults: DefaultsModel {
            user: sanitized_opt(c.defaults.user),
            key: sanitized_opt(c.defaults.key),
            port: c.defaults.port,
        },
        groups: c.groups.map_values(|g: GroupModel| sanitized_group(g)),
    }
}

/// Whether `c` is a control character other than tab.
pub fn is_unsafe_control(c: char) -> (r: bool)
    ensures
        r == unsafe_control(c),
{
    is_control(c) && c != '\t'
}

/// Replaces every unsafe control character of `s` by `?`.
pub fn sanitize_str(s: &mut String)
    ensures
        final(s)@ == sanitized(old(s)@),
{
    let cs = chars_of(s.as_str());
    let n = cs.len();
    let mut any = false;
    let mut out: Vec<char> = Vec::new();
    let mut i: usize = 0;
    while i < n
        invariant
            i <= n,
            n == cs@.len(),
            cs@ == old(s)@,
            *s == *old(s),
            out@ == sanitized(cs@.take(i as int)),
            any == exists|j: int| 0 <= j < i && unsafe_control(#[trigger] cs@[j]),
        decreases n - i,
    {
        let c = cs[i];
        let bad = is_unsafe_control(c);
        if bad {
            any = true;
            out.push('?');
        } else {
            out.push(c);
        }
        assert(out@ =~= sanitized(cs@.take(i + 1)));
        i = i + 1;
    }
    assert(cs@.take(n as int) =~= cs@);
    if any {
        *s = string_from_chars(&out);
    } else {
        assert(sanitized(cs@) =~= cs@);
    }
}

/// Replaces every unsafe control character of the text, if there is one.
pub fn sanitize_opt(s: &mut Option<String>)
    ensures
        opt_text(*final(s)) == sanitized_opt(opt_text(*old(s))),
{
    let mut taken = s.take();
    match taken {
        Some(mut v) => {
            sanitize_str(&mut v);
            *s = Some(v);
        },
        None => {},
    }
}

fn sanitize_strings(v: &mut Vec<String>)
    ensures
        text_seq(final(v)@) == text_seq(old(v)@).map_values(|t: Seq<char>| sanitized(t)),
{
    let mut src: Vec<String> = Vec::new();
    std::mem::swap(&mut src, v);
    let n = src.len();
    let mut i: usize = 0;
    while i < n
        invariant
            i <= n,
            n == src@.len(),
            src@ == old(v)@,
            text_seq(v@) == text_seq(src@).take(i as int).map_values(|t: Seq<char>| sanitized(t)),
        decreases n - i,
    {
        let mut t = src[i].clone();
        assert(t@ == src@[i as int]@);
        sanitize_str(&mut t);
        let ghost before = v@;
        v.push(t);
        assert(v@ == before.push(t));
        proof {
            lemma_map_push(before, t, |s: String| s@);
            lemma_take_succ(text_seq(src@), i as int);
            lemma_map_push(text_seq(src@).take(i as int), src@[i as int]@, |t: Seq<char>| sanitized(t));
        }
        i = i + 1;
    }
    assert(text_seq(src@).take(n as int) =~= text_seq(src@));
}

fn sanitize_server(s: &mut Server)
    ensures
        final(s)@ == sanitized_server(old(s)@),
{
    sanitize_str(&mut s.name);
    sanitize_str(&mut s.host);
    sanitize_opt(&mut s.user);
    sanitize_opt(&mut s.key);
    sanitize_opt(&mut s.flags);
    sanitize_opt(&mut s.description);
    sanitize_strings(&mut s.tags);
}

fn sanitize_group(g: &mut Group)
    ensures
        final(g)@ == sanitized_group(old(g)@),
{
    sanitize_str(&mut g.name);
    sanitize_opt(&mut g.icon);
    sanitize_opt(&mut g.user);
    sanitize_opt(&mut g.key);
    let mut src: Vec<Server> = Vec::new();
    std::mem::swap(&mut src, &mut g.servers);
    let mut out: Vec<Server> = Vec::new();
    let n = src.len();
    let mut i: usize = 0;
    while i < n
        invariant
            i <= n,
            n == src@.len(),
            server_models(out@) == server_models(src@).take(i as int).map_values(
                |s: ServerModel| sanitized_server(s),
            ),
        decreases n - i,
    {
        let mut t = src[i].clone();
        assert(t@ == src@[i as int]@);
        sanitize_server(&mut t);
        let ghost before = out@;
        out.push(t);
        assert(out@ == before.push(t));
        proof {
            lemma_map_push(before, t, |s: Server| s@);
            lemma_take_succ(server_models(src@), i as int);
            lemma_map_push(
                server_models(src@).take(i as int),
                src@[i as int]@,
                |s: ServerModel| sanitized_server(s),
            );
        }
        i = i + 1;
    }
    assert(server_models(src@).take(n as int) =~= server_models(src@));
    g.servers = out;
}

/// Replaces every unsafe control character in every text of the
/// configuration by `?`: what a config file read from disk goes through
/// before it is shown.
pub fn sanitize_config(c: &mut Config)
    ensures
        final(c)@ == sanitized_config(old(c)@),
{
    sanitize_opt(&mut c.defaults.user);
    sanitize_opt(&mut c.defaults.key);
    let mut src: Vec<Group> = Vec::new();
    std::mem::swap(&mut src, &mut c.groups);
    let mut out: Vec<Group> = Vec::new();
    let n = src.len();
    let mut i: usize = 0;
    while i < n
        invariant
            i <= n,
            n == src@.len(),
            group_models(out@) == group_models(src@).take(i as int).map_values(
                |g: GroupModel| sanitized_group(g),
            ),
        decreases n - i,
    {
        let mut t = src[i].clone();
        assert(t@ == src@[i as int]@);
        sanitize_group(&mut t);
        let ghost before = out@;
        out.push(t);
        assert(out@ == before.push(t));
        proof {
            lemma_map_push(before, t, |g: Group| g@);
            lemma_take_succ(group_models(src@), i as int);
            lemma_map_push(
                group_models(src@).take(i as int),
                src@[i as int]@,
                |g: GroupModel| sanitized_group(g),
            );
        }
        i = i + 1;
    }
    assert(group_models(src@).take(n as int) =~= group_models(src@));
    c.groups = out;
}

} // verus!
