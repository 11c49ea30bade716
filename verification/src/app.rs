//! The state of the host browser: the visible tree of groups and servers,
//! the selection, the add/edit wizard, the rename and delete dialogs, and the
//! decisions taken on each key press.
use vstd::prelude::*;

use crate::config::{
    group_models, lemma_sizes_fit, server_models, sizes_fit, Config, ConfigModel, Group, GroupModel, Server,
    ServerModel,
};
use crate::host::{host_problem, ip_candidate, ip_candidate_of, validate_host};
use crate::ssh::KeyInfo;
use crate::text::{
    char_vecs, chars_of, contains, control_char, decimal, decimal_i32, decimal_string, has_substring, is_control, join,
    joined, lemma_map_push, lemma_take_succ, lowercase, opt_text, parse_u16, parsed_u16, pop_char, push_char,
    signed_decimal, split_chars, split_on, string_from_chars, text_seq, to_lowercase, trim, trim_chars, trimmed,
};

verus! {

/// An identity file offered by the wizard, with its fingerprint when known.
#[derive(Debug)]
pub struct KeyOption {
    pub path: String,
    pub info: Option<KeyInfo>,
}

/// A line of the host tree: a group, or a server of a group
/// (indices into the configuration).
#[derive(Debug, Clone, Copy, PartialEq, Eq, Structural)]
pub enum Row {
    Group(usize),
    Server(usize, usize),
}

/// The steps of the add/edit wizard, in order.
#[derive(Debug, Clone, Copy, PartialEq, Eq, Structural)]
pub enum WizardStep {
    PickGroup,
    NewGroupName,
    ServerName,
    Host,
    User,
    Key,
    Port,
    Flags,
    Tags,
    Description,
    Confirm,
}

/// Whether the wizard adds a new server or edits server `si` of group `gi`.
#[derive(Debug, Clone, Copy, PartialEq, Eq, Structural)]
pub enum WizardMode {
    New,
    Edit { gi: usize, si: usize },
}

/// The answers collected by the wizard so far, as typed.
#[derive(Debug)]
pub struct ServerDraft {
    pub name: String,
    pub host: String,
    pub user: String,
    pub key: String,
    pub port: String,
    pub flags: String,
    pub tags: String,
    pub description: String,
}

/// The add/edit wizard: its mode and step, the chosen group, the draft,
/// the text being typed, the identity files offered, and the last error.
#[derive(Debug)]
pub struct Wizard {
    pub mode: WizardMode,
    pub step: WizardStep,
    pub group_idx: Option<usize>,
    pub group_pick: usize,
    pub new_group_name: String,
    pub draft: ServerDraft,
    pub input: String,
    pub key_options: Vec<KeyOption>,
    pub key_pick: usize,
    pub error: Option<String>,
}

/// The dialog that renames group `gi`.
#[derive(Debug)]
pub struct RenameGroup {
    pub gi: usize,
    pub input: String,
    pub error: Option<String>,
}

/// Why a new configuration is to be written, and what to finish once the
/// write has succeeded or failed.
#[derive(Debug)]
pub enum SaveReason {
    /// A group is renamed from `old_name` to `new_name` through `dialog`.
    Rename { dialog: RenameGroup, old_name: String, new_name: String },
    /// The server named `removed` is deleted.
    Delete { removed: String },
    /// The wizard adds, updates or moves the server `server_name`, which is
    /// server `new_si` of the group named `target_name`.
    Wizard { wizard: Wizard, target_name: String, new_si: usize, verb: String, server_name: String },
}

/// A configuration that the browser wants written to disk before it takes
/// effect.
#[derive(Debug)]
pub struct PendingSave {
    pub config: Config,
    pub reason: SaveReason,
}

/// What the browser asks the program to do after a key press.
#[derive(Debug, Clone, Copy, PartialEq, Eq, Structural)]
pub enum Action {
    Quit,
    Connect(usize, usize),
}

/// Whether a status message reports success or failure.
#[derive(Debug, Clone, Copy, PartialEq, Eq, Structural)]
pub enum FlashKind {
    Success,
    Failure,
}

/// A one-line status message shown in the footer.
#[derive(Debug)]
pub struct Flash {
    pub kind: FlashKind,
    pub message: String,
}

impl Flash {
    /// A success message.
    pub fn ok(s: String) -> (res: Self)
        ensures
            res.kind == FlashKind::Success,
            res.message@ == s@,
    {
        Flash { kind: FlashKind::Success, message: s }
    }

    /// A failure message.
    pub fn err(s: String) -> (res: Self)
        ensures
            res.kind == FlashKind::Failure,
            res.message@ == s@,
    {
        Flash { kind: FlashKind::Failure, message: s }
    }
}

/// `t` matches the (already lowercased) query `q`: its lowercase form
/// contains `q`.
pub open spec fn text_matches(t: Seq<char>, q: Seq<char>) -> bool {
    has_substring(lowercase(t), q)
}

/// A server matches the query by its name, its host or one of its tags.
pub open spec fn server_matches(s: ServerModel, q: Seq<char>) -> bool {
    ||| text_matches(s.name, q)
    ||| text_matches(s.host, q)
    ||| exists|k: int| 0 <= k < s.tags.len() && text_matches(#[trigger] s.tags[k], q)
}

/// A group matches a non-empty query by its name.
pub open spec fn group_matches(g: GroupModel, q: Seq<char>) -> bool {
    q.len() > 0 && text_matches(g.name, q)
}

/// The lowercase forms of the texts of a server that a query is matched
/// against: its name, its host and its tags.
pub struct LowerServerModel {
    pub name: Seq<char>,
    pub host: Seq<char>,
    pub tags: Seq<Seq<char>>,
}

/// The lowercase form of a group's name, and those of its servers' texts.
pub struct LowerGroupModel {
    pub name: Seq<char>,
    pub servers: Seq<LowerServerModel>,
}

/// The lowercase texts of a server.
pub open spec fn lower_server(s: ServerModel) -> LowerServerModel {
    LowerServerModel {
        name: lowercase(s.name),
        host: lowercase(s.host),
        tags: s.tags.map_values(|t: Seq<char>| lowercase(t)),
    }
}

/// The lowercase texts of a group and of its servers.
pub open spec fn lower_group(g: GroupModel) -> LowerGroupModel {
    LowerGroupModel { name: lowercase(g.name), servers: g.servers.map_values(|s: ServerModel| lower_server(s)) }
}

/// The lowercase texts of every group.
pub open spec fn lower_groups(groups: Seq<GroupModel>) -> Seq<LowerGroupModel> {
    groups.map_values(|g: GroupModel| lower_group(g))
}

/// A server matches the lowercased query `q` by the lowercase form of its
/// name, its host or one of its tags.
pub open spec fn lower_server_matches(s: LowerServerModel, q: Seq<char>) -> bool {
    ||| has_substring(s.name, q)
    ||| has_substring(s.host, q)
    ||| exists|k: int| 0 <= k < s.tags.len() && has_substring(#[trigger] s.tags[k], q)
}

/// A group matches a non-empty lowercased query by the lowercase form of
/// its name.
pub open spec fn lower_group_matches(g: LowerGroupModel, q: Seq<char>) -> bool {
    q.len() > 0 && has_substring(g.name, q)
}

/// Matching the lowercase texts is matching the texts.
pub proof fn lemma_lower_matches(g: GroupModel, q: Seq<char>)
    ensures
        lower_group_matches(lower_group(g), q) == group_matches(g, q),
        forall|si: int|
            0 <= si < g.servers.len() ==> lower_server_matches(
                #[trigger] lower_group(g).servers[si],
                q,
            ) == server_matches(g.servers[si], q),
{
    assert forall|si: int| 0 <= si < g.servers.len() implies lower_server_matches(
        #[trigger] lower_group(g).servers[si],
        q,
    ) == server_matches(g.servers[si], q) by {
        let s = g.servers[si];
        let l = lower_group(g).servers[si];
        assert(l == lower_server(s));
        if server_matches(s, q) {
            if !text_matches(s.name, q) && !text_matches(s.host, q) {
                let k = choose|k: int| 0 <= k < s.tags.len() && text_matches(#[trigger] s.tags[k], q);
                assert(l.tags[k] == lowercase(s.tags[k]));
                assert(has_substring(l.tags[k], q));
            }
        }
        if lower_server_matches(l, q) {
            if !has_substring(l.name, q) && !has_substring(l.host, q) {
                let k = choose|k: int| 0 <= k < l.tags.len() && has_substring(#[trigger] l.tags[k], q);
                assert(l.tags[k] == lowercase(s.tags[k]));
                assert(text_matches(s.tags[k], q));
            }
        }
    }
}

/// A server is listed: there is no query, or its group matches, or it
/// matches itself.
pub open spec fn server_listed(s: LowerServerModel, q: Seq<char>, group_match: bool) -> bool {
    q.len() == 0 || group_match || lower_server_matches(s, q)
}

/// The indices, ascending, of the first `n` servers that are listed.
pub open spec fn listed_servers(servers: Seq<LowerServerModel>, q: Seq<char>, group_match: bool, n: nat) -> Seq<
    usize,
>
    decreases n,
{
    if n == 0 {
        Seq::empty()
    } else {
        let prev = listed_servers(servers, q, group_match, (n - 1) as nat);
        if server_listed(servers[n - 1], q, group_match) {
            prev.push((n - 1) as usize)
        } else {
            prev
        }
    }
}

/// Whether group `gi` is unfolded; a group without a flag is unfolded.
pub open spec fn is_expanded(expanded: Seq<bool>, gi: int) -> bool {
    if 0 <= gi < expanded.len() {
        expanded[gi]
    } else {
        true
    }
}

/// The server rows of group `gi` for the given server indices.
pub open spec fn server_rows(gi: int, sis: Seq<usize>) -> Seq<Row> {
    sis.map_values(|si: usize| Row::Server(gi as usize, si))
}

/// The rows of group `gi` (given by its lowercase texts) under the
/// lowercased query `q`: none when a query is set and neither the group nor
/// any of its servers matches; else the group row, followed, when the group
/// is unfolded or a query is set, by the rows of its listed servers.
pub open spec fn group_rows(gi: int, g: LowerGroupModel, expanded: Seq<bool>, q: Seq<char>) -> Seq<Row> {
    let gm = lower_group_matches(g, q);
    let listed = listed_servers(g.servers, q, gm, g.servers.len());
    if q.len() > 0 && listed.len() == 0 && !gm {
        Seq::empty()
    } else {
        seq![Row::Group(gi as usize)] + if is_expanded(expanded, gi) || q.len() > 0 {
            server_rows(gi, listed)
        } else {
            Seq::empty()
        }
    }
}

/// The rows of the first `n` groups (given by their lowercase texts).
pub open spec fn rows_upto(groups: Seq<LowerGroupModel>, expanded: Seq<bool>, q: Seq<char>, n: nat) -> Seq<
    Row,
>
    decreases n,
{
    if n == 0 {
        Seq::empty()
    } else {
        rows_upto(groups, expanded, q, (n - 1) as nat) + group_rows(
            n - 1,
            groups[n - 1],
            expanded,
            q,
        )
    }
}

/// The rows of the host tree for the given groups, fold flags and query.
pub open spec fn visible(groups: Seq<GroupModel>, expanded: Seq<bool>, query: Seq<char>) -> Seq<Row> {
    rows_upto(lower_groups(groups), expanded, lowercase(query), groups.len())
}

/// The fold flags and selection after folding or unfolding the group of
/// the selected row: its flag is flipped and the selection brought back
/// into the rows; nothing changes when the selection is on a server or on
/// no row.
pub open spec fn toggled(groups: Seq<GroupModel>, expanded: Seq<bool>, query: Seq<char>, selected: usize) -> (
    Seq<bool>,
    usize,
) {
    let rows = visible(groups, expanded, query);
    if selected < rows.len() {
        match rows[selected as int] {
            Row::Group(gi) => {
                let e = expanded.update(gi as int, !expanded[gi as int]);
                (e, clamped(selected, visible(groups, e, query).len()))
            },
            Row::Server(_, _) => (expanded, selected),
        }
    } else {
        (expanded, selected)
    }
}

/// A row names a group, and a server of it, that exist.
pub open spec fn row_in(groups: Seq<GroupModel>, r: Row) -> bool {
    match r {
        Row::Group(gi) => gi < groups.len(),
        Row::Server(gi, si) => gi < groups.len() && si < groups[gi as int].servers.len(),
    }
}

/// The selection moved into range: the last row when it lies beyond it,
/// 0 when there are no rows.
pub open spec fn clamped(selected: usize, n: nat) -> usize {
    if n == 0 {
        0
    } else if selected >= n {
        (n - 1) as usize
    } else {
        selected
    }
}

/// The selection after moving down among `n` rows: the next row, the first
/// after the last; unchanged when there are no rows.
pub open spec fn moved_down(selected: usize, n: nat) -> int {
    if n == 0 {
        selected as int
    } else {
        (selected + 1) % (n as int)
    }
}

/// The selection after moving up among `n` rows: the previous row, the
/// last before the first; unchanged when there are no rows.
pub open spec fn moved_up(selected: usize, n: nat) -> int {
    if n == 0 {
        selected as int
    } else if selected == 0 {
        n - 1
    } else {
        selected - 1
    }
}

/// The browser: configuration, fold flags, selection, query and the dialog
/// that is open, if any.
pub struct App {
    pub config: Config,
    pub expanded: Vec<bool>,
    pub selected: usize,
    pub query: String,
    pub wizard: Option<Wizard>,
    pub delete_confirm: Option<(usize, usize)>,
    pub rename_group: Option<RenameGroup>,
    pub flash: Option<Flash>,
}

proof fn lemma_listed_servers(servers: Seq<LowerServerModel>, q: Seq<char>, gm: bool, n: nat)
    requires
        n <= servers.len(),
    ensures
        listed_servers(servers, q, gm, n).len() <= n,
        forall|k: int|
            0 <= k < listed_servers(servers, q, gm, n).len() ==> #[trigger] listed_servers(
                servers,
                q,
                gm,
                n,
            )[k] < n,
    decreases n,
{
    if n > 0 {
        lemma_listed_servers(servers, q, gm, (n - 1) as nat);
    }
}

/// Every row of the first `n` groups names a group and server that exist.
proof fn lemma_rows_upto_in(groups: Seq<GroupModel>, expanded: Seq<bool>, q: Seq<char>, n: nat)
    requires
        n <= groups.len(),
        sizes_fit(groups),
    ensures
        forall|k: int|
            0 <= k < rows_upto(lower_groups(groups), expanded, q, n).len() ==> row_in(
                groups,
                #[trigger] rows_upto(lower_groups(groups), expanded, q, n)[k],
            ),
        forall|k: int|
            0 <= k < rows_upto(lower_groups(groups), expanded, q, n).len() ==> match #[trigger] rows_upto(
                lower_groups(groups),
                expanded,
                q,
                n,
            )[k] {
                Row::Group(gi) => gi < n,
                Row::Server(gi, si) => gi < n,
            },
    decreases n,
{
    if n > 0 {
        let lg = lower_groups(groups);
        let m = (n - 1) as nat;
        lemma_rows_upto_in(groups, expanded, q, m);
        let g = lg[m as int];
        assert(g == lower_group(groups[m as int]));
        assert(g.servers.len() == groups[m as int].servers.len());
        let gm = lower_group_matches(g, q);
        lemma_listed_servers(g.servers, q, gm, g.servers.len());
        let prev = rows_upto(lg, expanded, q, m);
        let gr = group_rows(m as int, g, expanded, q);
        assert(rows_upto(lg, expanded, q, n) == prev + gr);
        assert forall|k: int| 0 <= k < gr.len() implies row_in(groups, #[trigger] gr[k]) && match gr[k] {
            Row::Group(gi) => gi < n,
            Row::Server(gi, si) => gi < n,
        } by {
            if k > 0 {
                let listed = listed_servers(g.servers, q, gm, g.servers.len());
                assert(gr[k] == Row::Server(m as usize, listed[k - 1]));
            }
        }
        assert forall|k: int|
            0 <= k < rows_upto(lg, expanded, q, n).len() implies row_in(
            groups,
            #[trigger] rows_upto(lg, expanded, q, n)[k],
        ) && match rows_upto(lg, expanded, q, n)[k] {
            Row::Group(gi) => gi < n,
            Row::Server(gi, si) => gi < n,
        } by {
            if k < prev.len() {
                assert(rows_upto(lg, expanded, q, n)[k] == prev[k]);
            } else {
                assert(rows_upto(lg, expanded, q, n)[k] == gr[k - prev.len()]);
            }
        }
    }
}

/// Every visible row names a group, and a server of it, that exist.
pub proof fn lemma_visible_rows_in(groups: Seq<GroupModel>, expanded: Seq<bool>, query: Seq<char>)
    requires
        sizes_fit(groups),
    ensures
        forall|k: int|
            0 <= k < visible(groups, expanded, query).len() ==> row_in(
                groups,
                #[trigger] visible(groups, expanded, query)[k],
            ),
{
    lemma_rows_upto_in(groups, expanded, lowercase(query), groups.len());
}

/// The lowercase texts of a server, as the filter reads them.
#[derive(Debug)]
pub struct LowerServer {
    pub name: String,
    pub host: String,
    pub tags: Vec<String>,
}

impl View for LowerServer {
    type V = LowerServerModel;

    open spec fn view(&self) -> LowerServerModel {
        LowerServerModel { name: self.name@, host: self.host@, tags: text_seq(self.tags@) }
    }
}

/// The lowercase texts of a group and of its servers, as the filter reads
/// them.
#[derive(Debug)]
pub struct LowerGroup {
    pub name: String,
    pub servers: Vec<LowerServer>,
}

/// The models of a sequence of lowercase server texts.
pub open spec fn lower_server_models(v: Seq<LowerServer>) -> Seq<LowerServerModel> {
    v.map_values(|s: LowerServer| s@)
}

impl View for LowerGroup {
    type V = LowerGroupModel;

    open spec fn view(&self) -> LowerGroupModel {
        LowerGroupModel { name: self.name@, servers: lower_server_models(self.servers@) }
    }
}

/// The models of a sequence of lowercase group texts.
pub open spec fn lower_group_models(v: Seq<LowerGroup>) -> Seq<LowerGroupModel> {
    v.map_values(|g: LowerGroup| g@)
}

fn lowered_server(s: &Server) -> (res: LowerServer)
    ensures
        res@ == lower_server(s@),
{
    let mut tags: Vec<String> = Vec::new();
    let n = s.tags.len();
    let mut i: usize = 0;
    while i < n
        invariant
            i <= n,
            n == s.tags@.len(),
            text_seq(tags@) == text_seq(s.tags@).take(i as int).map_values(|t: Seq<char>| lowercase(t)),
        decreases n - i,
    {
        let t = to_lowercase(s.tags[i].as_str());
        let ghost before = tags@;
        tags.push(t);
        proof {
            lemma_map_push(before, t, |s: String| s@);
            lemma_take_succ(text_seq(s.tags@), i as int);
            lemma_map_push(text_seq(s.tags@).take(i as int), s.tags@[i as int]@, |t: Seq<char>| lowercase(t));
        }
        i = i + 1;
    }
    assert(text_seq(s.tags@).take(n as int) =~= text_seq(s.tags@));
    LowerServer { name: to_lowercase(s.name.as_str()), host: to_lowercase(s.host.as_str()), tags }
}

fn lowered_group(g: &Group) -> (res: LowerGroup)
    ensures
        res@ == lower_group(g@),
{
    let mut servers: Vec<LowerServer> = Vec::new();
    let n = g.servers.len();
    let mut i: usize = 0;
    while i < n
        invariant
            i <= n,
            n == g.servers@.len(),
            lower_server_models(servers@) == server_models(g.servers@).take(i as int).map_values(
                |s: ServerModel| lower_server(s),
            ),
        decreases n - i,
    {
        let l = lowered_server(&g.servers[i]);
        let ghost before = servers@;
        servers.push(l);
        proof {
            lemma_map_push(before, l, |s: LowerServer| s@);
            lemma_take_succ(server_models(g.servers@), i as int);
            lemma_map_push(
                server_models(g.servers@).take(i as int),
                g.servers@[i as int]@,
                |s: ServerModel| lower_server(s),
            );
        }
        i = i + 1;
    }
    assert(server_models(g.servers@).take(n as int) =~= server_models(g.servers@));
    LowerGroup { name: to_lowercase(g.name.as_str()), servers }
}

fn lowered_groups(groups: &Vec<Group>) -> (res: Vec<LowerGroup>)
    ensures
        lower_group_models(res@) == lower_groups(group_models(groups@)),
{
    let mut out: Vec<LowerGroup> = Vec::new();
    let n = groups.len();
    let mut i: usize = 0;
    while i < n
        invariant
            i <= n,
            n == groups@.len(),
            lower_group_models(out@) == lower_groups(group_models(groups@).take(i as int)),
        decreases n - i,
    {
        let l = lowered_group(&groups[i]);
        let ghost before = out@;
        out.push(l);
        proof {
            lemma_map_push(before, l, |g: LowerGroup| g@);
            lemma_take_succ(group_models(groups@), i as int);
            lemma_map_push(
                group_models(groups@).take(i as int),
                groups@[i as int]@,
                |g: GroupModel| lower_group(g),
            );
        }
        i = i + 1;
    }
    assert(group_models(groups@).take(n as int) =~= group_models(groups@));
    out
}

fn lower_server_match(s: &LowerServer, q: &str) -> (r: bool)
    ensures
        r == lower_server_matches(s@, q@),
{
    if contains(s.name.as_str(), q) || contains(s.host.as_str(), q) {
        return true;
    }
    let n = s.tags.len();
    let mut k: usize = 0;
    while k < n
        invariant
            k <= n,
            n == s.tags@.len(),
            forall|j: int| 0 <= j < k ==> !has_substring(#[trigger] s@.tags[j], q@),
        decreases n - k,
    {
        if contains(s.tags[k].as_str(), q) {
            assert(has_substring(s@.tags[k as int], q@));
            return true;
        }
        k = k + 1;
    }
    false
}

/// The rows of the host tree for groups given by the lowercase forms of
/// their texts, with fold flags `expanded`, under the lowercased query `q`:
/// for each group (in order) that is shown, its row, then the rows of its
/// listed servers when it is unfolded or a query is set. With a query, a
/// group is shown when its name contains the query or one of its servers
/// does by name, host or tag; a matching group lists all its servers.
pub fn tree_rows(groups: &Vec<LowerGroup>, expanded: &Vec<bool>, q: &str) -> (res: Vec<Row>)
    ensures
        res@ == rows_upto(lower_group_models(groups@), expanded@, q@, groups@.len()),
{
    let mut rows: Vec<Row> = Vec::new();
    let filter = !q.is_empty();
    let ghost gs = lower_group_models(groups@);
    let n = groups.len();
    let mut gi: usize = 0;
    while gi < n
        invariant
            gi <= n,
            n == groups@.len(),
            gs == lower_group_models(groups@),
            filter == (q@.len() > 0),
            rows@ == rows_upto(gs, expanded@, q@, gi as nat),
        decreases n - gi,
    {
        let group = &groups[gi];
        let ghost g = gs[gi as int];
        assert(g == group@);
        let group_match = filter && contains(group.name.as_str(), q);
        let m = group.servers.len();
        let mut matching: Vec<usize> = Vec::new();
        let mut si: usize = 0;
        while si < m
            invariant
                si <= m,
                m == group.servers@.len(),
                g == group@,
                filter == (q@.len() > 0),
                group_match == lower_group_matches(g, q@),
                matching@ == listed_servers(g.servers, q@, group_match, si as nat),
            decreases m - si,
        {
            let s = &group.servers[si];
            assert(g.servers[si as int] == s@);
            if !filter || group_match || lower_server_match(s, q) {
                matching.push(si);
            }
            si = si + 1;
        }
        let ghost before = rows@;
        if filter && matching.len() == 0 && !group_match {
            assert(group_rows(gi as int, g, expanded@, q@) =~= Seq::<Row>::empty());
        } else {
            rows.push(Row::Group(gi));
            let exp = if gi < expanded.len() {
                expanded[gi]
            } else {
                true
            };
            if exp || filter {
                let k = matching.len();
                let mut j: usize = 0;
                while j < k
                    invariant
                        j <= k,
                        k == matching@.len(),
                        rows@ == before + seq![Row::Group(gi)] + server_rows(gi as int, matching@.take(j as int)),
                    decreases k - j,
                {
                    rows.push(Row::Server(gi, matching[j]));
                    assert(server_rows(gi as int, matching@.take(j + 1)) =~= server_rows(
                        gi as int,
                        matching@.take(j as int),
                    ).push(Row::Server(gi, matching@[j as int])));
                    j = j + 1;
                }
                assert(matching@.take(k as int) =~= matching@);
                assert(rows@ =~= before + group_rows(gi as int, g, expanded@, q@));
            } else {
                assert(rows@ =~= before + group_rows(gi as int, g, expanded@, q@));
            }
        }
        assert(rows_upto(gs, expanded@, q@, (gi + 1) as nat) == rows_upto(gs, expanded@, q@, gi as nat)
            + group_rows(gi as int, gs[gi as int], expanded@, q@));
        gi = gi + 1;
    }
    rows
}

impl App {
    /// The rows of the host tree as they are now.
    pub open spec fn rows(&self) -> Seq<Row> {
        visible(group_models(self.config.groups@), self.expanded@, self.query@)
    }

    /// When the selected row is a group, that group has a fold flag.
    pub open spec fn selected_flag_exists(&self) -> bool {
        self.selected < self.rows().len() ==> match self.rows()[self.selected as int] {
            Row::Group(gi) => gi < self.expanded@.len(),
            Row::Server(_, _) => true,
        }
    }

    /// A browser on `config`, every group unfolded, nothing selected beyond
    /// the first row, no query and no dialog.
    pub fn new(config: Config) -> (res: Self)
        ensures
            res.config@ == config@,
            res.expanded@ == Seq::new(config.groups@.len(), |i: int| true),
            res.selected == 0,
            res.query@.len() == 0,
            res.wizard is None,
            res.delete_confirm is None,
            res.rename_group is None,
            res.flash is None,
    {
        let n = config.groups.len();
        let expanded = vec![true; n];
        assert(expanded@ =~= Seq::new(config.groups@.len(), |i: int| true));
        App {
            config,
            expanded,
            selected: 0,
            query: String::new(),
            wizard: None,
            delete_confirm: None,
            rename_group: None,
            flash: None,
        }
    }

    /// The rows of the host tree: for each group (in order) that is shown,
    /// its row, then the rows of its listed servers when it is unfolded or a
    /// query is set. With a query, a group is shown when its name matches or
    /// one of its servers matches by name, host or tag (case-insensitively);
    /// a matching group lists all its servers.
    pub fn visible_rows(&self) -> (res: Vec<Row>)
        ensures
            res@ == self.rows(),
            (lowercase(self.query@).len() == 0) == (self.query@.len() == 0),
    {
        let lowered = lowered_groups(&self.config.groups);
        assert(lower_group_models(lowered@).len() == lowered@.len());
        assert(lower_groups(group_models(self.config.groups@)).len() == self.config.groups@.len());
        let q = to_lowercase(self.query.as_str());
        tree_rows(&lowered, &self.expanded, q.as_str())
    }

    /// Moves the selection one row down, wrapping to the first row.
    pub fn move_down(&mut self)
        ensures
            final(self).selected == moved_down(old(self).selected, old(self).rows().len()),
            final(self).config@ == old(self).config@,
            final(self).expanded@ == old(self).expanded@,
            final(self).query@ == old(self).query@,
            final(self).wizard == old(self).wizard,
            final(self).delete_confirm == old(self).delete_confirm,
            final(self).rename_group == old(self).rename_group,
            final(self).flash == old(self).flash,
    {
        let n = self.visible_rows().len();
        if n == 0 {
            return;
        }
        let s = self.selected % n;
        let next = if s + 1 == n {
            0
        } else {
            s + 1
        };
        proof {
            let a = self.selected as int;
            let m = n as int;
            vstd::arithmetic::div_mod::lemma_add_mod_noop_right(1, a, m);
            if a % m + 1 == m {
                assert((a % m + 1) % m == 0) by {
                    vstd::arithmetic::div_mod::lemma_mod_self_0(m);
                }
            } else {
                assert((a % m + 1) % m == a % m + 1) by {
                    vstd::arithmetic::div_mod::lemma_small_mod((a % m + 1) as nat, m as nat);
                }
            }
        }
        self.selected = next;
    }

    /// Moves the selection one row up, wrapping to the last row.
    pub fn move_up(&mut self)
        ensures
            final(self).selected == moved_up(old(self).selected, old(self).rows().len()),
            final(self).config@ == old(self).config@,
            final(self).expanded@ == old(self).expanded@,
            final(self).query@ == old(self).query@,
            final(self).wizard == old(self).wizard,
            final(self).delete_confirm == old(self).delete_confirm,
            final(self).rename_group == old(self).rename_group,
            final(self).flash == old(self).flash,
    {
        let n = self.visible_rows().len();
        if n == 0 {
            return;
        }
        self.selected = if self.selected == 0 {
            n - 1
        } else {
            self.selected - 1
        };
    }

    /// Brings the selection back into the rows: onto the last row when it
    /// lies beyond it, onto 0 when there are no rows.
    pub fn clamp_selection(&mut self)
        ensures
            final(self).selected == clamped(old(self).selected, old(self).rows().len()),
            final(self).config@ == old(self).config@,
            final(self).expanded@ == old(self).expanded@,
            final(self).query@ == old(self).query@,
            final(self).wizard == old(self).wizard,
            final(self).delete_confirm == old(self).delete_confirm,
            final(self).rename_group == old(self).rename_group,
            final(self).flash == old(self).flash,
    {
        let n = self.visible_rows().len();
        if n == 0 {
            self.selected = 0;
        } else if self.selected >= n {
            self.selected = n - 1;
        }
    }

    /// Folds or unfolds the selected group (nothing happens on a server
    /// row), then brings the selection back into the rows.
    pub fn toggle_current(&mut self)
        requires
            old(self).selected_flag_exists(),
        ensures
            (final(self).expanded@, final(self).selected) == toggled(
                group_models(old(self).config.groups@),
                old(self).expanded@,
                old(self).query@,
                old(self).selected,
            ),
            final(self).expanded@.len() == old(self).expanded@.len(),
            final(self).config@ == old(self).config@,
            final(self).query@ == old(self).query@,
            final(self).wizard == old(self).wizard,
            final(self).delete_confirm == old(self).delete_confirm,
            final(self).rename_group == old(self).rename_group,
            final(self).flash == old(self).flash,
    {
        let rows = self.visible_rows();
        proof {
            lemma_sizes_fit(&self.config.groups);
            lemma_visible_rows_in(group_models(self.config.groups@), self.expanded@, self.query@);
        }
        if self.selected < rows.len() {
            match rows[self.selected] {
                Row::Group(gi) => {
                    assert(row_in(group_models(self.config.groups@), rows@[self.selected as int]));
                    let v = !self.expanded[gi];
                    self.expanded.set(gi, v);
                    self.clamp_selection();
                },
                Row::Server(_, _) => {},
            }
        }
    }

    /// Enter on the selected row: a server row asks to connect to it; a
    /// group row is folded or unfolded instead.
    pub fn enter(&mut self) -> (res: Option<Action>)
        requires
            old(self).selected_flag_exists(),
        ensures
            final(self).expanded@.len() == old(self).expanded@.len(),
            final(self).config@ == old(self).config@,
            final(self).query@ == old(self).query@,
            final(self).wizard == old(self).wizard,
            final(self).delete_confirm == old(self).delete_confirm,
            final(self).rename_group == old(self).rename_group,
            final(self).flash == old(self).flash,
            !(old(self).selected < old(self).rows().len()) ==> res is None && final(self).expanded@
                == old(self).expanded@ && final(self).selected == old(self).selected,
            old(self).selected < old(self).rows().len() ==> match old(self).rows()[old(
                self,
            ).selected as int] {
                Row::Server(gi, si) => res == Some(Action::Connect(gi, si))
                    && final(self).expanded@ == old(self).expanded@ && final(self).selected
                    == old(self).selected,
                Row::Group(gi) => res is None && final(self).expanded@
                    == old(self).expanded@.update(gi as int, !old(self).expanded@[gi as int])
                    && final(self).selected == clamped(
                    old(self).selected,
                    visible(
                        group_models(old(self).config.groups@),
                        final(self).expanded@,
                        old(self).query@,
                    ).len(),
                ),
            },
    {
        let rows = self.visible_rows();
        proof {
            lemma_sizes_fit(&self.config.groups);
            lemma_visible_rows_in(group_models(self.config.groups@), self.expanded@, self.query@);
        }
        if self.selected >= rows.len() {
            return None;
        }
        match rows[self.selected] {
            Row::Group(gi) => {
                assert(row_in(group_models(self.config.groups@), rows@[self.selected as int]));
                let v = !self.expanded[gi];
                self.expanded.set(gi, v);
                self.clamp_selection();
                None
            },
            Row::Server(gi, si) => Some(Action::Connect(gi, si)),
        }
    }

    /// The selected server with its group and server indices, when the
    /// selection is on a server row.
    pub fn current_server(&self) -> (res: Option<(usize, usize, &Server)>)
        ensures
            match res {
                Some((gi, si, s)) => self.selected < self.rows().len() && self.rows()[self.selected as int]
                    == Row::Server(gi, si) && gi < self.config.groups@.len() && si
                    < self.config.groups@[gi as int].servers@.len() && *s
                    == self.config.groups@[gi as int].servers@[si as int],
                None => !(self.selected < self.rows().len() && self.rows()[self.selected as int] is Server),
            },
    {
        let rows = self.visible_rows();
        proof {
            lemma_sizes_fit(&self.config.groups);
            lemma_visible_rows_in(group_models(self.config.groups@), self.expanded@, self.query@);
        }
        if self.selected >= rows.len() {
            return None;
        }
        match rows[self.selected] {
            Row::Server(gi, si) => {
                assert(row_in(group_models(self.config.groups@), rows@[self.selected as int]));
                Some((gi, si, &self.config.groups[gi].servers[si]))
            },
            Row::Group(_) => None,
        }
    }
}

/// The groups that still have servers, in order.
pub open spec fn pruned(groups: Seq<GroupModel>) -> Seq<GroupModel> {
    groups.filter(|g: GroupModel| g.servers.len() > 0)
}

/// Drops every group that has no servers left.
pub fn prune_empty_groups(config: &mut Config)
    ensures
        final(config)@.defaults == old(config)@.defaults,
        final(config)@.groups == pruned(old(config)@.groups),
{
    let mut src: Vec<Group> = Vec::new();
    std::mem::swap(&mut src, &mut config.groups);
    let ghost gs = group_models(src@);
    let ghost pred = |g: GroupModel| g.servers.len() > 0;
    let mut out: Vec<Group> = Vec::new();
    let n = src.len();
    let mut i: usize = 0;
    while i < n
        invariant
            i <= n,
            n == src@.len(),
            gs == group_models(src@),
            pred == (|g: GroupModel| g.servers.len() > 0),
            group_models(out@) == gs.take(i as int).filter(pred),
        decreases n - i,
    {
        proof {
            lemma_take_succ(gs, i as int);
            assert(gs.take(i + 1).drop_last() =~= gs.take(i as int));
            reveal_with_fuel(Seq::<_>::filter, 1);
            assert(gs.take(i + 1).filter(pred) == if pred(gs[i as int]) {
                gs.take(i as int).filter(pred).push(gs[i as int])
            } else {
                gs.take(i as int).filter(pred)
            });
        }
        if src[i].servers.len() > 0 {
            let g = src[i].clone();
            assert(g@ == gs[i as int]);
            let ghost before = out@;
            out.push(g);
            proof {
                lemma_map_push(before, g, |g: Group| g@);
            }
        }
        i = i + 1;
    }
    assert(gs.take(n as int) =~= gs);
    config.groups = out;
}

/// The index of the first group named `name`, or -1.
pub open spec fn first_named(groups: Seq<GroupModel>, name: Seq<char>) -> int
    decreases groups.len(),
{
    if groups.len() == 0 {
        -1
    } else if groups[0].name == name {
        0
    } else {
        let r = first_named(groups.drop_first(), name);
        if r < 0 {
            -1
        } else {
            r + 1
        }
    }
}

/// The fold flag a group keeps across a change of the group list: that of
/// the first old group with its name, else unfolded.
pub open spec fn kept_flag(old_groups: Seq<GroupModel>, old_expanded: Seq<bool>, name: Seq<char>) -> bool {
    let i = first_named(old_groups, name);
    if 0 <= i < old_expanded.len() {
        old_expanded[i]
    } else {
        true
    }
}

/// The fold flags for `new_groups`, carried over by name from the old ones.
pub open spec fn reconciled(
    old_groups: Seq<GroupModel>,
    old_expanded: Seq<bool>,
    new_groups: Seq<GroupModel>,
) -> Seq<bool> {
    Seq::new(new_groups.len(), |k: int| kept_flag(old_groups, old_expanded, new_groups[k].name))
}

proof fn lemma_first_named_found(groups: Seq<GroupModel>, name: Seq<char>, i: int)
    requires
        0 <= i < groups.len(),
        groups[i].name == name,
        forall|j: int| 0 <= j < i ==> groups[j].name != name,
    ensures
        first_named(groups, name) == i,
    decreases i,
{
    if i > 0 {
        assert forall|j: int| 0 <= j < i - 1 implies groups.drop_first()[j].name != name by {
            assert(groups.drop_first()[j] == groups[j + 1]);
        }
        lemma_first_named_found(groups.drop_first(), name, i - 1);
    }
}

proof fn lemma_first_named_absent(groups: Seq<GroupModel>, name: Seq<char>)
    requires
        forall|j: int| 0 <= j < groups.len() ==> groups[j].name != name,
    ensures
        first_named(groups, name) == -1,
    decreases groups.len(),
{
    if groups.len() > 0 {
        assert forall|j: int| 0 <= j < groups.len() - 1 implies groups.drop_first()[j].name
            != name by {
            assert(groups.drop_first()[j] == groups[j + 1]);
        }
        lemma_first_named_absent(groups.drop_first(), name);
    }
}

fn position_of_name(groups: &[Group], name: &String) -> (res: Option<usize>)
    ensures
        match res {
            Some(i) => i < groups@.len() && first_named(group_models(groups@), name@) == i,
            None => first_named(group_models(groups@), name@) == -1,
        },
{
    let n = groups.len();
    let ghost gs = group_models(groups@);
    let mut i: usize = 0;
    while i < n
        invariant
            i <= n,
            n == groups@.len(),
            gs == group_models(groups@),
            forall|j: int| 0 <= j < i ==> gs[j].name != name@,
        decreases n - i,
    {
        if groups[i].name == *name {
            proof {
                lemma_first_named_found(gs, name@, i as int);
            }
            return Some(i);
        }
        i = i + 1;
    }
    proof {
        lemma_first_named_absent(gs, name@);
    }
    None
}

/// The fold flags for `new_groups`: each keeps the flag of the first old
/// group with the same name, and a group that is new is unfolded.
pub fn reconcile_expanded(old_groups: &[Group], old_expanded: &[bool], new_groups: &[Group]) -> (res:
    Vec<bool>)
    ensures
        res@ == reconciled(group_models(old_groups@), old_expanded@, group_models(new_groups@)),
{
    let mut res: Vec<bool> = Vec::new();
    let n = new_groups.len();
    let mut k: usize = 0;
    while k < n
        invariant
            k <= n,
            n == new_groups@.len(),
            res@ == reconciled(group_models(old_groups@), old_expanded@, group_models(new_groups@)).take(k as int),
        decreases n - k,
    {
        let flag = match position_of_name(old_groups, &new_groups[k].name) {
            Some(i) => if i < old_expanded.len() {
                old_expanded[i]
            } else {
                true
            },
            None => true,
        };
        res.push(flag);
        assert(res@ =~= reconciled(group_models(old_groups@), old_expanded@, group_models(new_groups@)).take(k + 1));
        k = k + 1;
    }
    res
}

/// `g` with the given server list.
pub open spec fn with_servers(g: GroupModel, servers: Seq<ServerModel>) -> GroupModel {
    GroupModel { name: g.name, icon: g.icon, user: g.user, key: g.key, port: g.port, servers }
}

/// `g` with the given name.
pub open spec fn with_name(g: GroupModel, name: Seq<char>) -> GroupModel {
    GroupModel { name, icon: g.icon, user: g.user, key: g.key, port: g.port, servers: g.servers }
}

/// The groups after server `si` of group `gi` is removed and empty groups
/// are dropped.
pub open spec fn after_delete(groups: Seq<GroupModel>, gi: int, si: int) -> Seq<GroupModel> {
    pruned(groups.update(gi, with_servers(groups[gi], groups[gi].servers.remove(si))))
}

/// The text of a success message: a check mark, a space and `s`.
pub open spec fn ok_text(s: Seq<char>) -> Seq<char> {
    "✓ "@ + s
}

fn concat(a: &str, b: &str) -> (res: String)
    ensures
        res@ == a@ + b@,
{
    let mut out = String::from_str(a);
    out.append(b);
    out
}

/// Whether a group other than group `gi` is named `name`.
fn name_taken_by_other(groups: &Vec<Group>, gi: usize, name: &String) -> (r: bool)
    ensures
        r == exists|i: int| 0 <= i < groups@.len() && i != gi && #[trigger] group_models(groups@)[i].name == name@,
{
    let n = groups.len();
    let mut i: usize = 0;
    while i < n
        invariant
            i <= n,
            n == groups@.len(),
            forall|j: int| 0 <= j < i && j != gi ==> #[trigger] group_models(groups@)[j].name != name@,
        decreases n - i,
    {
        if i != gi && groups[i].name == *name {
            assert(group_models(groups@)[i as int].name == name@);
            return true;
        }
        i = i + 1;
    }
    false
}

impl App {
    /// Opens the delete confirmation for the selected server, if the
    /// selection is on a server.
    pub fn start_delete_confirm(&mut self)
        ensures
            old(self).selected < old(self).rows().len() ==> match old(self).rows()[old(
                self,
            ).selected as int] {
                Row::Server(gi, si) => final(self).delete_confirm == Some((gi, si)),
                Row::Group(_) => final(self).delete_confirm == old(self).delete_confirm,
            },
            !(old(self).selected < old(self).rows().len()) ==> final(self).delete_confirm == old(
                self,
            ).delete_confirm,
            final(self).config == old(self).config,
            final(self).expanded == old(self).expanded,
            final(self).selected == old(self).selected,
            final(self).query == old(self).query,
            final(self).wizard == old(self).wizard,
            final(self).rename_group == old(self).rename_group,
            final(self).flash == old(self).flash,
    {
        match self.current_server() {
            Some((gi, si, _)) => {
                self.delete_confirm = Some((gi, si));
            },
            None => {},
        }
    }

    /// Closes the delete confirmation.
    pub fn cancel_delete(&mut self)
        ensures
            final(self).delete_confirm is None,
            final(self).config == old(self).config,
            final(self).expanded == old(self).expanded,
            final(self).selected == old(self).selected,
            final(self).query == old(self).query,
            final(self).wizard == old(self).wizard,
            final(self).rename_group == old(self).rename_group,
            final(self).flash == old(self).flash,
    {
        self.delete_confirm = None;
    }

    /// Confirms the delete: closes the confirmation and, when it names a
    /// server that exists, asks for the configuration without that server
    /// (and without groups left empty) to be written. Nothing else changes
    /// until the write is finished with `finish_save`.
    pub fn commit_delete(&mut self) -> (res: Option<PendingSave>)
        ensures
            final(self).delete_confirm is None,
            final(self).config@ == old(self).config@,
            final(self).expanded@ == old(self).expanded@,
            final(self).selected == old(self).selected,
            final(self).query@ == old(self).query@,
            final(self).wizard == old(self).wizard,
            final(self).rename_group == old(self).rename_group,
            final(self).flash == old(self).flash,
            match old(self).delete_confirm {
                Some((gi, si)) => if gi < old(self).config@.groups.len() && si < old(
                    self,
                ).config@.groups[gi as int].servers.len() {
                    &&& res matches Some(p)
                    &&& p.config@.defaults == old(self).config@.defaults
                    &&& p.config@.groups == after_delete(
                        old(self).config@.groups,
                        gi as int,
                        si as int,
                    )
                    &&& p.reason matches SaveReason::Delete { removed }
                    &&& removed@ == old(self).config@.groups[gi as int].servers[si as int].name
                } else {
                    res is None
                },
                None => res is None,
            },
    {
        let (gi, si) = match self.delete_confirm.take() {
            Some(p) => p,
            None => return None,
        };
        if gi >= self.config.groups.len() || si >= self.config.groups[gi].servers.len() {
            return None;
        }
        let mut new_config = self.config.clone();
        assert(group_models(new_config.groups@).len() == new_config.groups@.len());
        assert(new_config.groups@.len() == self.config.groups@.len());
        let mut g = new_config.groups[gi].clone();
        assert(g@ == old(self).config@.groups[gi as int]);
        let removed = g.servers.remove(si);
        assert(server_models(g.servers@) =~= old(self).config@.groups[gi as int].servers.remove(si as int));
        let ghost before = new_config.groups@;
        new_config.groups.set(gi, g);
        assert(group_models(new_config.groups@) =~= old(self).config@.groups.update(
            gi as int,
            with_servers(old(self).config@.groups[gi as int], old(self).config@.groups[gi as int].servers.remove(si as int)),
        ));
        prune_empty_groups(&mut new_config);
        Some(PendingSave { config: new_config, reason: SaveReason::Delete { removed: removed.name } })
    }

    /// Opens the rename dialog for the group of the selected row, with the
    /// group's name as the text to edit.
    pub fn start_rename_group(&mut self)
        ensures
            (old(self).selected < old(self).rows().len()) ==> {
                let gi = match old(self).rows()[old(self).selected as int] {
                    Row::Group(g) => g,
                    Row::Server(g, _) => g,
                };
                &&& final(self).rename_group matches Some(r)
                &&& r.gi == gi
                &&& r.input@ == old(self).config@.groups[gi as int].name
                &&& r.error is None
            },
            !(old(self).selected < old(self).rows().len()) ==> final(self).rename_group == old(self).rename_group,
            final(self).config == old(self).config,
            final(self).expanded == old(self).expanded,
            final(self).selected == old(self).selected,
            final(self).query == old(self).query,
            final(self).wizard == old(self).wizard,
            final(self).delete_confirm == old(self).delete_confirm,
            final(self).flash == old(self).flash,
    {
        let rows = self.visible_rows();
        proof {
            lemma_sizes_fit(&self.config.groups);
            lemma_visible_rows_in(group_models(self.config.groups@), self.expanded@, self.query@);
        }
        if self.selected >= rows.len() {
            return;
        }
        let gi = match rows[self.selected] {
            Row::Group(gi) => gi,
            Row::Server(gi, _) => gi,
        };
        assert(row_in(group_models(self.config.groups@), rows@[self.selected as int]));
        if gi >= self.config.groups.len() {
            return;
        }
        let name = self.config.groups[gi].name.clone();
        self.rename_group = Some(RenameGroup { gi, input: name, error: None });
    }

    /// Closes the rename dialog.
    pub fn cancel_rename_group(&mut self)
        ensures
            final(self).rename_group is None,
            final(self).config == old(self).config,
            final(self).expanded == old(self).expanded,
            final(self).selected == old(self).selected,
            final(self).query == old(self).query,
            final(self).wizard == old(self).wizard,
            final(self).delete_confirm == old(self).delete_confirm,
            final(self).flash == old(self).flash,
    {
        self.rename_group = None;
    }

    /// Types a character into the rename dialog (control characters are
    /// ignored) and clears its error.
    pub fn rename_input(&mut self, c: char)
        ensures
            match old(self).rename_group {
                Some(r) => if control_char(c) {
                    final(self).rename_group == old(self).rename_group
                } else {
                    &&& final(self).rename_group matches Some(nr)
                    &&& nr.gi == r.gi
                    &&& nr.input@ == r.input@.push(c)
                    &&& nr.error is None
                },
                None => final(self).rename_group is None,
            },
            final(self).config == old(self).config,
            final(self).expanded == old(self).expanded,
            final(self).selected == old(self).selected,
            final(self).query == old(self).query,
            final(self).wizard == old(self).wizard,
            final(self).delete_confirm == old(self).delete_confirm,
            final(self).flash == old(self).flash,
    {
        if is_control(c) {
            return;
        }
        match self.rename_group.take() {
            Some(mut r) => {
                push_char(&mut r.input, c);
                r.error = None;
                self.rename_group = Some(r);
            },
            None => {},
        }
    }

    /// Deletes the last character of the rename dialog's text and clears
    /// its error.
    pub fn rename_backspace(&mut self)
        ensures
            match old(self).rename_group {
                Some(r) => {
                    &&& final(self).rename_group matches Some(nr)
                    &&& nr.gi == r.gi
                    &&& nr.input@ == (if r.input@.len() > 0 {
                        r.input@.drop_last()
                    } else {
                        r.input@
                    })
                    &&& nr.error is None
                },
                None => final(self).rename_group is None,
            },
            final(self).config == old(self).config,
            final(self).expanded == old(self).expanded,
            final(self).selected == old(self).selected,
            final(self).query == old(self).query,
            final(self).wizard == old(self).wizard,
            final(self).delete_confirm == old(self).delete_confirm,
            final(self).flash == old(self).flash,
    {
        match self.rename_group.take() {
            Some(mut r) => {
                pop_char(&mut r.input);
                r.error = None;
                self.rename_group = Some(r);
            },
            None => {},
        }
    }

    /// Confirms the rename. The new name is the dialog's text, trimmed. An
    /// empty name, or the name of another group, keeps the dialog open with
    /// an error; the group's own name, or a group index that does not exist,
    /// closes it without change. Otherwise the dialog is closed and the
    /// configuration with the group renamed is asked to be written; nothing
    /// else changes until the write is finished with `finish_save`.
    pub fn commit_rename_group(&mut self) -> (res: Option<PendingSave>)
        ensures
            final(self).config@ == old(self).config@,
            final(self).expanded@ == old(self).expanded@,
            final(self).selected == old(self).selected,
            final(self).query@ == old(self).query@,
            final(self).wizard == old(self).wizard,
            final(self).delete_confirm == old(self).delete_confirm,
            final(self).flash == old(self).flash,
            match old(self).rename_group {
                None => res is None && final(self).rename_group is None,
                Some(r) => {
                    let name = trimmed(r.input@);
                    let groups = old(self).config@.groups;
                    if name.len() == 0 {
                        &&& res is None
                        &&& final(self).rename_group matches Some(nr)
                        &&& nr.gi == r.gi
                        &&& nr.input@ == r.input@
                        &&& nr.error matches Some(e)
                        &&& e@ == "name cannot be empty"@
                    } else if r.gi >= groups.len() {
                        res is None && final(self).rename_group is None
                    } else if name != groups[r.gi as int].name && exists|i: int|
                        0 <= i < groups.len() && i != r.gi && #[trigger] groups[i].name == name {
                        &&& res is None
                        &&& final(self).rename_group matches Some(nr)
                        &&& nr.gi == r.gi
                        &&& nr.input@ == r.input@
                        &&& nr.error matches Some(e)
                        &&& e@ == "a group with that name already exists"@
                    } else if name == groups[r.gi as int].name {
                        res is None && final(self).rename_group is None
                    } else {
                        &&& final(self).rename_group is None
                        &&& res matches Some(p)
                        &&& p.config@ == (ConfigModel {
                            defaults: old(self).config@.defaults,
                            groups: groups.update(r.gi as int, with_name(groups[r.gi as int], name)),
                        })
                        &&& p.reason matches SaveReason::Rename { dialog, old_name, new_name }
                        &&& dialog.gi == r.gi
                        &&& dialog.input@ == r.input@
                        &&& old_name@ == groups[r.gi as int].name
                        &&& new_name@ == name
                    }
                },
            },
    {
        let mut r = match self.rename_group.take() {
            Some(r) => r,
            None => return None,
        };
        let new_name = trim(r.input.as_str());
        if new_name.as_str().is_empty() {
            r.error = Some(String::from_str("name cannot be empty"));
            self.rename_group = Some(r);
            return None;
        }
        if r.gi >= self.config.groups.len() {
            return None;
        }
        let ghost groups = old(self).config@.groups;
        let same_as_current = new_name == self.config.groups[r.gi].name;
        if !same_as_current && name_taken_by_other(&self.config.groups, r.gi, &new_name) {
            r.error = Some(String::from_str("a group with that name already exists"));
            self.rename_group = Some(r);
            return None;
        }
        if same_as_current {
            return None;
        }
        let mut new_config = self.config.clone();
        assert(group_models(new_config.groups@).len() == new_config.groups@.len());
        let mut g = new_config.groups[r.gi].clone();
        let old_name = g.name.clone();
        g.name = new_name.clone();
        new_config.groups.set(r.gi, g);
        assert(group_models(new_config.groups@) =~= groups.update(
            r.gi as int,
            with_name(groups[r.gi as int], new_name@),
        ));
        Some(
            PendingSave {
                config: new_config,
                reason: SaveReason::Rename { dialog: r, old_name, new_name },
            },
        )
    }
}

/// The algorithm and fingerprint of an optional key description.
pub open spec fn opt_info(o: Option<KeyInfo>) -> Option<(Seq<char>, Seq<char>)> {
    match o {
        Some(k) => Some(k@),
        None => None,
    }
}

/// Mathematical model of a key option: its path and what is known of it.
pub type KeyModel = (Seq<char>, Option<(Seq<char>, Seq<char>)>);

impl View for KeyOption {
    type V = KeyModel;

    open spec fn view(&self) -> KeyModel {
        (self.path@, opt_info(self.info))
    }
}

/// The models of a sequence of key options.
pub open spec fn key_models(v: Seq<KeyOption>) -> Seq<KeyModel> {
    v.map_values(|k: KeyOption| k@)
}

/// Mathematical model of a `ServerDraft`.
pub struct DraftModel {
    pub name: Seq<char>,
    pub host: Seq<char>,
    pub user: Seq<char>,
    pub key: Seq<char>,
    pub port: Seq<char>,
    pub flags: Seq<char>,
    pub tags: Seq<char>,
    pub description: Seq<char>,
}

impl View for ServerDraft {
    type V = DraftModel;

    open spec fn view(&self) -> DraftModel {
        DraftModel {
            name: self.name@,
            host: self.host@,
            user: self.user@,
            key: self.key@,
            port: self.port@,
            flags: self.flags@,
            tags: self.tags@,
            description: self.description@,
        }
    }
}

impl Default for ServerDraft {
    fn default() -> (res: Self)
        ensures
            res@ == empty_draft(),
    {
        ServerDraft {
            name: String::new(),
            host: String::new(),
            user: String::new(),
            key: String::new(),
            port: String::new(),
            flags: String::new(),
            tags: String::new(),
            description: String::new(),
        }
    }
}

/// Mathematical model of a `Wizard`.
pub struct WizardModel {
    pub mode: WizardMode,
    pub step: WizardStep,
    pub group_idx: Option<usize>,
    pub group_pick: usize,
    pub new_group_name: Seq<char>,
    pub draft: DraftModel,
    pub input: Seq<char>,
    pub keys: Seq<KeyModel>,
    pub key_pick: usize,
    pub error: Option<Seq<char>>,
}

impl View for Wizard {
    type V = WizardModel;

    open spec fn view(&self) -> WizardModel {
        WizardModel {
            mode: self.mode,
            step: self.step,
            group_idx: self.group_idx,
            group_pick: self.group_pick,
            new_group_name: self.new_group_name@,
            draft: self.draft@,
            input: self.input@,
            keys: key_models(self.key_options@),
            key_pick: self.key_pick,
            error: opt_text(self.error),
        }
    }
}

/// The model of an optional wizard.
pub open spec fn wizard_model(o: Option<Wizard>) -> Option<WizardModel> {
    match o {
        Some(w) => Some(w@),
        None => None,
    }
}

/// The wizard's group choice and the server it edits exist in `groups`.
pub open spec fn wizard_fits(w: WizardModel, groups: Seq<GroupModel>) -> bool {
    &&& (w.group_idx matches Some(i) ==> i < groups.len())
    &&& (w.mode matches WizardMode::Edit { gi, si } ==> gi < groups.len() && si
        < groups[gi as int].servers.len())
}

/// The answer a text step edits; empty for the steps that are not typed.
pub open spec fn step_text(w: WizardModel) -> Seq<char> {
    match w.step {
        WizardStep::NewGroupName => w.new_group_name,
        WizardStep::ServerName => w.draft.name,
        WizardStep::Host => w.draft.host,
        WizardStep::User => w.draft.user,
        WizardStep::Port => w.draft.port,
        WizardStep::Flags => w.draft.flags,
        WizardStep::Tags => w.draft.tags,
        WizardStep::Description => w.draft.description,
        _ => Seq::empty(),
    }
}

/// The index of the first key option with the given path, or -1.
pub open spec fn key_position(keys: Seq<KeyModel>, path: Seq<char>) -> int
    decreases keys.len(),
{
    if keys.len() == 0 {
        -1
    } else if keys[0].0 == path {
        0
    } else {
        let r = key_position(keys.drop_first(), path);
        if r < 0 {
            -1
        } else {
            r + 1
        }
    }
}

/// The key option to highlight for a path: the first with that path, else
/// the first one.
pub open spec fn key_index(keys: Seq<KeyModel>, path: Seq<char>) -> usize {
    let p = key_position(keys, path);
    if p >= 0 {
        p as usize
    } else {
        0
    }
}

/// The wizard with its text field showing the answer of the current step,
/// and, on the key step, the highlight on the key chosen so far.
pub open spec fn synced(w: WizardModel) -> WizardModel {
    WizardModel {
        input: step_text(w),
        key_pick: if w.step == WizardStep::Key {
            key_index(w.keys, w.draft.key)
        } else {
            w.key_pick
        },
        ..w
    }
}

/// The wizard moved to `step` with its error cleared and its text synced.
pub open spec fn moved_to(w: WizardModel, step: WizardStep) -> WizardModel {
    synced(WizardModel { step, error: None, ..w })
}

/// The wizard showing an error and otherwise unchanged.
pub open spec fn with_error(w: WizardModel, e: Seq<char>) -> WizardModel {
    WizardModel { error: Some(e), ..w }
}

/// The step before `step`; the name step goes back to the new-group step
/// when no existing group was chosen.
pub open spec fn prev_step(step: WizardStep, group_idx: Option<usize>) -> WizardStep {
    match step {
        WizardStep::PickGroup => WizardStep::PickGroup,
        WizardStep::NewGroupName => WizardStep::PickGroup,
        WizardStep::ServerName => if group_idx is None {
            WizardStep::NewGroupName
        } else {
            WizardStep::PickGroup
        },
        WizardStep::Host => WizardStep::ServerName,
        WizardStep::User => WizardStep::Host,
        WizardStep::Key => WizardStep::User,
        WizardStep::Port => WizardStep::Key,
        WizardStep::Flags => WizardStep::Port,
        WizardStep::Tags => WizardStep::Flags,
        WizardStep::Description => WizardStep::Tags,
        WizardStep::Confirm => WizardStep::Description,
    }
}

/// The draft with one answer replaced.
pub open spec fn draft_with(d: DraftModel, step: WizardStep, v: Seq<char>) -> DraftModel {
    match step {
        WizardStep::ServerName => DraftModel { name: v, ..d },
        WizardStep::Host => DraftModel { host: v, ..d },
        WizardStep::User => DraftModel { user: v, ..d },
        WizardStep::Key => DraftModel { key: v, ..d },
        WizardStep::Port => DraftModel { port: v, ..d },
        WizardStep::Flags => DraftModel { flags: v, ..d },
        WizardStep::Tags => DraftModel { tags: v, ..d },
        WizardStep::Description => DraftModel { description: v, ..d },
        _ => d,
    }
}

/// The wizard after storing answer `v` for its step and moving to `next`.
pub open spec fn answered(w: WizardModel, v: Seq<char>, next: WizardStep) -> WizardModel {
    moved_to(WizardModel { draft: draft_with(w.draft, w.step, v), ..w }, next)
}

/// What Enter does on a step other than the last: validate the typed
/// answer (trimmed), store it and go to the next step, or show why it is
/// refused. `groups_len` is the number of groups; `host_is_ip` says whether
/// the typed host parses as an IP address.
pub open spec fn advanced(w: WizardModel, groups_len: nat, host_is_ip: bool) -> WizardModel {
    let v = trimmed(w.input);
    match w.step {
        WizardStep::PickGroup => if w.group_pick < groups_len {
            moved_to(WizardModel { group_idx: Some(w.group_pick), ..w }, WizardStep::ServerName)
        } else {
            moved_to(WizardModel { group_idx: None, ..w }, WizardStep::NewGroupName)
        },
        WizardStep::NewGroupName => if v.len() == 0 {
            with_error(w, "group name cannot be empty"@)
        } else {
            moved_to(WizardModel { new_group_name: v, ..w }, WizardStep::ServerName)
        },
        WizardStep::ServerName => if v.len() == 0 {
            with_error(w, "server name required"@)
        } else {
            answered(w, v, WizardStep::Host)
        },
        WizardStep::Host => if v.len() == 0 {
            with_error(w, "host required"@)
        } else {
            match host_problem(v, host_is_ip) {
                Some(e) => with_error(w, e),
                None => answered(w, v, WizardStep::User),
            }
        },
        WizardStep::User => answered(w, v, WizardStep::Key),
        WizardStep::Key => answered(
            w,
            if w.key_pick < w.keys.len() {
                w.keys[w.key_pick as int].0
            } else {
                Seq::empty()
            },
            WizardStep::Port,
        ),
        WizardStep::Port => if v.len() > 0 && parsed_u16(v) is None {
            with_error(w, "invalid port: "@ + v)
        } else if v.len() > 0 && parsed_u16(v) == Some(0u16) {
            with_error(w, "port must be between 1 and 65535"@)
        } else {
            answered(w, v, WizardStep::Flags)
        },
        WizardStep::Flags => answered(w, v, WizardStep::Tags),
        WizardStep::Tags => answered(w, v, WizardStep::Description),
        WizardStep::Description => answered(w, v, WizardStep::Confirm),
        WizardStep::Confirm => w,
    }
}

/// An answer as an optional setting: its trimmed text, or nothing when
/// that is empty.
pub open spec fn nonblank(s: Seq<char>) -> Option<Seq<char>> {
    let t = trimmed(s);
    if t.len() == 0 {
        None
    } else {
        Some(t)
    }
}

/// The tags of a comma-separated answer: each part trimmed, empty parts
/// dropped.
pub open spec fn tag_list(s: Seq<char>) -> Seq<Seq<char>> {
    split_on(s, ',').map_values(|p: Seq<char>| trimmed(p)).filter(|t: Seq<char>| t.len() > 0)
}

/// The server the draft describes, with the given port.
pub open spec fn drafted_server(d: DraftModel, port: Option<u16>) -> ServerModel {
    ServerModel {
        name: d.name,
        host: d.host,
        user: nonblank(d.user),
        key: nonblank(d.key),
        port,
        flags: nonblank(d.flags),
        tags: tag_list(d.tags),
        description: nonblank(d.description),
    }
}

/// A group with just a name.
pub open spec fn bare_group(name: Seq<char>) -> GroupModel {
    GroupModel { name, icon: None, user: None, key: None, port: None, servers: Seq::empty() }
}

/// The groups with the wizard's target group (a new one is added at the
/// end when none was chosen), and the index of the target.
pub open spec fn with_target(groups: Seq<GroupModel>, w: WizardModel) -> (Seq<GroupModel>, int) {
    match w.group_idx {
        Some(i) => (groups, i as int),
        None => (groups.push(bare_group(w.new_group_name)), groups.len() as int),
    }
}

/// Where the wizard's server lands: the groups after it is added to the
/// target group (or, when editing, replaces the original in place, or is
/// moved out of its old group into the target), and its index in the
/// target group.
pub open spec fn placed(groups: Seq<GroupModel>, w: WizardModel, server: ServerModel) -> (Seq<GroupModel>, int) {
    let (gs, t) = with_target(groups, w);
    match w.mode {
        WizardMode::New => (
            gs.update(t, with_servers(gs[t], gs[t].servers.push(server))),
            gs[t].servers.len() as int,
        ),
        WizardMode::Edit { gi, si } => if t == gi {
            (gs.update(t, with_servers(gs[t], gs[t].servers.update(si as int, server))), si as int)
        } else {
            let g1 = gs.update(gi as int, with_servers(gs[gi as int], gs[gi as int].servers.remove(si as int)));
            (g1.update(t, with_servers(g1[t], g1[t].servers.push(server))), g1[t].servers.len() as int)
        },
    }
}

/// The word the completion message uses for what the wizard did.
pub open spec fn wizard_verb(w: WizardModel) -> Seq<char> {
    match w.mode {
        WizardMode::New => "added"@,
        WizardMode::Edit { gi, si } => if w.group_idx == Some(gi) {
            "updated"@
        } else {
            "moved"@
        },
    }
}

/// The port the draft asks for: `Some(None)` when left empty, `Some(Some(p))`
/// when it reads as a port, `None` when it does not.
pub open spec fn draft_port(d: DraftModel) -> Option<Option<u16>> {
    if d.port.len() == 0 {
        Some(None)
    } else {
        match parsed_u16(d.port) {
            Some(p) => Some(Some(p)),
            None => None,
        }
    }
}

/// The index of the first row equal to `r`, or -1.
pub open spec fn row_position(rows: Seq<Row>, r: Row) -> int
    decreases rows.len(),
{
    if rows.len() == 0 {
        -1
    } else if rows[0] == r {
        0
    } else {
        let p = row_position(rows.drop_first(), r);
        if p < 0 {
            -1
        } else {
            p + 1
        }
    }
}

/// The identity files the wizard offers: none first, then the existing
/// key (trimmed, with `existing_info`) when it is set and not among the
/// discovered ones, then the discovered ones.
pub open spec fn key_choices(existing: Seq<char>, discovered: Seq<KeyModel>, existing_info: Option<(Seq<char>, Seq<char>)>) -> Seq<KeyModel> {
    let t = trimmed(existing);
    let listed = exists|i: int| 0 <= i < discovered.len() && #[trigger] discovered[i].0 == t;
    seq![(Seq::<char>::empty(), None::<(Seq<char>, Seq<char>)>)] + (if t.len() > 0 && !listed {
        seq![(t, existing_info)]
    } else {
        Seq::empty()
    }) + discovered
}

fn key_position_of(keys: &Vec<KeyOption>, path: &String) -> (res: Option<usize>)
    ensures
        match res {
            Some(i) => i < keys@.len() && key_position(key_models(keys@), path@) == i,
            None => key_position(key_models(keys@), path@) == -1,
        },
{
    let n = keys.len();
    let ghost ks = key_models(keys@);
    let mut i: usize = 0;
    while i < n
        invariant
            i <= n,
            n == keys@.len(),
            ks == key_models(keys@),
            forall|j: int| 0 <= j < i ==> ks[j].0 != path@,
        decreases n - i,
    {
        if keys[i].path == *path {
            proof {
                lemma_key_position_found(ks, path@, i as int);
            }
            return Some(i);
        }
        i = i + 1;
    }
    proof {
        lemma_key_position_found(ks, path@, n as int);
    }
    None
}

proof fn lemma_key_position_found(keys: Seq<KeyModel>, path: Seq<char>, i: int)
    requires
        0 <= i <= keys.len(),
        i < keys.len() ==> keys[i].0 == path,
        forall|j: int| 0 <= j < i ==> keys[j].0 != path,
    ensures
        key_position(keys, path) == if i < keys.len() {
            i
        } else {
            -1
        },
    decreases keys.len(),
{
    if keys.len() > 0 && i > 0 {
        assert forall|j: int| 0 <= j < i - 1 implies keys.drop_first()[j].0 != path by {
            assert(keys.drop_first()[j] == keys[j + 1]);
        }
        lemma_key_position_found(keys.drop_first(), path, i - 1);
    }
}

/// Shows the answer of the current step in the text field and, on the key
/// step, highlights the key chosen so far.
fn sync_input(w: &mut Wizard)
    ensures
        final(w)@ == synced(old(w)@),
{
    let text = match w.step {
        WizardStep::NewGroupName => w.new_group_name.clone(),
        WizardStep::ServerName => w.draft.name.clone(),
        WizardStep::Host => w.draft.host.clone(),
        WizardStep::User => w.draft.user.clone(),
        WizardStep::Port => w.draft.port.clone(),
        WizardStep::Flags => w.draft.flags.clone(),
        WizardStep::Tags => w.draft.tags.clone(),
        WizardStep::Description => w.draft.description.clone(),
        _ => String::new(),
    };
    w.input = text;
    if w.step == WizardStep::Key {
        w.key_pick = match key_position_of(&w.key_options, &w.draft.key) {
            Some(i) => i,
            None => 0,
        };
    }
}

fn path_listed(keys: &Vec<KeyOption>, path: &String) -> (r: bool)
    ensures
        r == exists|i: int| 0 <= i < keys@.len() && #[trigger] key_models(keys@)[i].0 == path@,
{
    let n = keys.len();
    let mut i: usize = 0;
    while i < n
        invariant
            i <= n,
            n == keys@.len(),
            forall|j: int| 0 <= j < i ==> #[trigger] key_models(keys@)[j].0 != path@,
        decreases n - i,
    {
        if keys[i].path == *path {
            assert(key_models(keys@)[i as int].0 == path@);
            return true;
        }
        i = i + 1;
    }
    false
}

fn copy_key_info(o: &Option<KeyInfo>) -> (res: Option<KeyInfo>)
    ensures
        opt_info(res) == opt_info(*o),
{
    match o {
        Some(k) => Some(k.clone()),
        None => None,
    }
}

/// The identity files the wizard offers: none first, then the existing key
/// (trimmed, described by `existing_info`) when it is set and was not
/// discovered, then the discovered keys.
pub fn build_key_options(existing: &str, discovered: Vec<KeyOption>, existing_info: Option<KeyInfo>) -> (res: Vec<KeyOption>)
    ensures
        key_models(res@) == key_choices(existing@, key_models(discovered@), opt_info(existing_info)),
{
    let mut opts: Vec<KeyOption> = Vec::new();
    opts.push(KeyOption { path: String::new(), info: None });
    let trimmed_key = trim(existing);
    let ghost ds = key_models(discovered@);
    let listed = !trimmed_key.as_str().is_empty() && path_listed(&discovered, &trimmed_key);
    let ghost first = key_models(opts@);
    if !trimmed_key.as_str().is_empty() && !listed {
        opts.push(KeyOption { path: trimmed_key, info: existing_info });
    }
    let ghost base = key_models(opts@);
    let n = discovered.len();
    let mut i: usize = 0;
    let mut rest = discovered;
    let ghost all = rest@;
    let mut moved: Vec<KeyOption> = Vec::new();
    while i < n
        invariant
            i <= n,
            n == all.len(),
            ds == key_models(all),
            key_models(opts@) == base + ds.take(i as int),
            rest@ == all,
        decreases n - i,
    {
        let k = KeyOption { path: rest[i].path.clone(), info: copy_key_info(&rest[i].info) };
        assert(k@ == ds[i as int]);
        let ghost before = opts@;
        opts.push(k);
        proof {
            lemma_map_push(before, k, |k: KeyOption| k@);
            lemma_take_succ(ds, i as int);
        }
        i = i + 1;
    }
    assert(ds.take(n as int) =~= ds);
    assert(key_models(opts@) =~= key_choices(existing@, ds, opt_info(existing_info))) by {
        assert(first =~= seq![(Seq::<char>::empty(), None::<(Seq<char>, Seq<char>)>)]);
    }
    opts
}

/// Everything but the wizard is the same in both states.
pub open spec fn kept_but_wizard(a: App, b: App) -> bool {
    &&& b.config@ == a.config@
    &&& b.expanded@ == a.expanded@
    &&& b.selected == a.selected
    &&& b.query@ == a.query@
    &&& b.delete_confirm == a.delete_confirm
    &&& b.rename_group == a.rename_group
    &&& b.flash == a.flash
}

/// A draft with every answer empty.
pub open spec fn empty_draft() -> DraftModel {
    DraftModel {
        name: Seq::empty(),
        host: Seq::empty(),
        user: Seq::empty(),
        key: Seq::empty(),
        port: Seq::empty(),
        flags: Seq::empty(),
        tags: Seq::empty(),
        description: Seq::empty(),
    }
}

/// The text of an optional value, or nothing.
pub open spec fn text_or_empty(o: Option<Seq<char>>) -> Seq<char> {
    match o {
        Some(s) => s,
        None => Seq::empty(),
    }
}

/// The draft the wizard starts from when editing server `s`.
pub open spec fn draft_of(s: ServerModel) -> DraftModel {
    DraftModel {
        name: s.name,
        host: s.host,
        user: text_or_empty(s.user),
        key: text_or_empty(s.key),
        port: match s.port {
            Some(p) => decimal(p as nat),
            None => Seq::empty(),
        },
        flags: text_or_empty(s.flags),
        tags: joined(s.tags, ", "@),
        description: text_or_empty(s.description),
    }
}

/// The wizard that edits server `si` of group `gi`, `s`: on the group
/// step with its group preselected, the draft filled from the server, and
/// the key options built from its key, the discovered keys and what is
/// known of its key, the server's key highlighted.
pub open spec fn edit_start(
    gi: usize,
    si: usize,
    s: ServerModel,
    discovered: Seq<KeyModel>,
    existing_info: Option<(Seq<char>, Seq<char>)>,
) -> WizardModel {
    let existing = text_or_empty(s.key);
    let keys = key_choices(existing, discovered, existing_info);
    WizardModel {
        mode: WizardMode::Edit { gi, si },
        step: WizardStep::PickGroup,
        group_idx: None,
        group_pick: gi,
        new_group_name: Seq::empty(),
        draft: draft_of(s),
        input: Seq::empty(),
        keys,
        key_pick: key_index(keys, existing),
        error: None,
    }
}

/// The group of the selected row, or 0 when no row is selected.
pub open spec fn selected_group(rows: Seq<Row>, selected: usize) -> usize {
    if selected < rows.len() {
        match rows[selected as int] {
            Row::Group(gi) => gi,
            Row::Server(gi, _) => gi,
        }
    } else {
        0
    }
}

fn copy_text(o: &Option<String>) -> (res: String)
    ensures
        res@ == text_or_empty(opt_text(*o)),
{
    match o {
        Some(s) => s.clone(),
        None => String::new(),
    }
}

impl App {
    /// Opens the wizard to add a server: on the group step, with the group
    /// of the selected row preselected (the "new group" entry when that
    /// index is past the groups), and the discovered keys offered after
    /// "none".
    pub fn start_wizard(&mut self, discovered: Vec<KeyOption>)
        ensures
            kept_but_wizard(*old(self), *final(self)),
            wizard_model(final(self).wizard) == Some(
                WizardModel {
                    mode: WizardMode::New,
                    step: WizardStep::PickGroup,
                    group_idx: None,
                    group_pick: if selected_group(old(self).rows(), old(self).selected)
                        <= old(self).config@.groups.len() {
                        selected_group(old(self).rows(), old(self).selected)
                    } else {
                        old(self).config@.groups.len() as usize
                    },
                    new_group_name: Seq::empty(),
                    draft: empty_draft(),
                    input: Seq::empty(),
                    keys: key_choices(Seq::empty(), key_models(discovered@), None),
                    key_pick: 0,
                    error: None,
                },
            ),
    {
        let rows = self.visible_rows();
        let preselect = if self.selected < rows.len() {
            match rows[self.selected] {
                Row::Group(gi) => gi,
                Row::Server(gi, _) => gi,
            }
        } else {
            0
        };
        let key_options = build_key_options("", discovered, None);
        proof {
            reveal_strlit("");
        }
        let n = self.config.groups.len();
        let pick = if preselect <= n {
            preselect
        } else {
            n
        };
        let draft = ServerDraft::default();
        self.wizard = Some(
            Wizard {
                mode: WizardMode::New,
                step: WizardStep::PickGroup,
                group_idx: None,
                group_pick: pick,
                new_group_name: String::new(),
                draft,
                input: String::new(),
                key_options,
                key_pick: 0,
                error: None,
            },
        );
    }

    /// Opens the wizard to edit the selected server (nothing happens when
    /// the selection is not on a server): on the group step with its group
    /// preselected, the draft filled from the server, and the key options
    /// built from its key, `discovered` and `existing_info` (what is known of
    /// its key when that was not discovered).
    pub fn start_wizard_edit(&mut self, discovered: Vec<KeyOption>, existing_info: Option<KeyInfo>)
        ensures
            kept_but_wizard(*old(self), *final(self)),
            !(old(self).selected < old(self).rows().len() && old(self).rows()[old(self).selected as int] is Server)
                ==> final(self).wizard == old(self).wizard,
            old(self).selected < old(self).rows().len() ==> match old(self).rows()[old(self).selected as int] {
                Row::Server(gi, si) => wizard_model(final(self).wizard) == Some(
                    edit_start(
                        gi,
                        si,
                        old(self).config@.groups[gi as int].servers[si as int],
                        key_models(discovered@),
                        opt_info(existing_info),
                    ),
                ),
                Row::Group(_) => final(self).wizard == old(self).wizard,
            },
    {
        let (gi, si, server) = match self.current_server() {
            Some(t) => t,
            None => return,
        };
        let existing_key = copy_text(&server.key);
        let key_options = build_key_options(existing_key.as_str(), discovered, existing_info);
        let key_pick = match key_position_of(&key_options, &existing_key) {
            Some(i) => i,
            None => 0,
        };
        let port = match server.port {
            Some(p) => decimal_string(p),
            None => String::new(),
        };
        let draft = ServerDraft {
            name: server.name.clone(),
            host: server.host.clone(),
            user: copy_text(&server.user),
            key: existing_key,
            port,
            flags: copy_text(&server.flags),
            tags: join(&server.tags, ", "),
            description: copy_text(&server.description),
        };
        assert(server@ == old(self).config@.groups[gi as int].servers[si as int]);
        assert(draft@ == draft_of(server@));
        self.wizard = Some(
            Wizard {
                mode: WizardMode::Edit { gi, si },
                step: WizardStep::PickGroup,
                group_idx: None,
                group_pick: gi,
                new_group_name: String::new(),
                draft,
                input: String::new(),
                key_options,
                key_pick,
                error: None,
            },
        );
    }

    /// The key of the selected server (trimmed) when it is set and is not
    /// among `discovered`: the one key the program must describe before it
    /// calls `start_wizard_edit`.
    pub fn key_to_fingerprint(&self, discovered: &Vec<KeyOption>) -> (res: Option<String>)
        ensures
            self.selected < self.rows().len() ==> match self.rows()[self.selected as int] {
                Row::Server(gi, si) => {
                    let t = trimmed(text_or_empty(self.config@.groups[gi as int].servers[si as int].key));
                    if t.len() > 0 && !exists|i: int| 0 <= i < discovered@.len() && #[trigger] key_models(discovered@)[i].0 == t {
                        opt_text(res) == Some(t)
                    } else {
                        res is None
                    }
                },
                Row::Group(_) => res is None,
            },
            !(self.selected < self.rows().len()) ==> res is None,
    {
        let (_, _, server) = match self.current_server() {
            Some(t) => t,
            None => return None,
        };
        let existing = copy_text(&server.key);
        let t = trim(existing.as_str());
        if t.as_str().is_empty() || path_listed(discovered, &t) {
            return None;
        }
        Some(t)
    }

    /// Closes the wizard.
    pub fn cancel_wizard(&mut self)
        ensures
            kept_but_wizard(*old(self), *final(self)),
            final(self).wizard is None,
    {
        self.wizard = None;
    }

    /// Types a character into the wizard's text field (ignored on the group
    /// and key steps and for control characters) and clears the error.
    pub fn wizard_input(&mut self, c: char)
        ensures
            kept_but_wizard(*old(self), *final(self)),
            wizard_model(final(self).wizard) == match wizard_model(old(self).wizard) {
                Some(w) => if w.step == WizardStep::PickGroup || w.step == WizardStep::Key
                    || control_char(c) {
                    Some(w)
                } else {
                    Some(WizardModel { input: w.input.push(c), error: None, ..w })
                },
                None => None,
            },
    {
        let mut w = match self.wizard.take() {
            Some(w) => w,
            None => return,
        };
        if !(w.step == WizardStep::PickGroup || w.step == WizardStep::Key) && !is_control(c) {
            push_char(&mut w.input, c);
            w.error = None;
        }
        self.wizard = Some(w);
    }

    /// Deletes the last character of the wizard's text field (not on the
    /// group, key and confirm steps) and clears the error.
    pub fn wizard_backspace(&mut self)
        ensures
            kept_but_wizard(*old(self), *final(self)),
            wizard_model(final(self).wizard) == match wizard_model(old(self).wizard) {
                Some(w) => if w.step == WizardStep::PickGroup || w.step == WizardStep::Key
                    || w.step == WizardStep::Confirm {
                    Some(w)
                } else {
                    Some(
                        WizardModel {
                            input: if w.input.len() > 0 {
                                w.input.drop_last()
                            } else {
                                w.input
                            },
                            error: None,
                            ..w
                        },
                    )
                },
                None => None,
            },
    {
        let mut w = match self.wizard.take() {
            Some(w) => w,
            None => return,
        };
        if !(w.step == WizardStep::PickGroup || w.step == WizardStep::Key || w.step
            == WizardStep::Confirm) {
            pop_char(&mut w.input);
            w.error = None;
        }
        self.wizard = Some(w);
    }

    /// Moves the group or key highlight one entry down, stopping at the last
    /// (on the group step the last entry is "new group").
    pub fn wizard_pick_down(&mut self)
        ensures
            kept_but_wizard(*old(self), *final(self)),
            wizard_model(final(self).wizard) == match wizard_model(old(self).wizard) {
                Some(w) => if w.step == WizardStep::PickGroup && w.group_pick < old(self).config@.groups.len() {
                    Some(WizardModel { group_pick: (w.group_pick + 1) as usize, ..w })
                } else if w.step == WizardStep::Key && w.key_pick + 1 < w.keys.len() {
                    Some(WizardModel { key_pick: (w.key_pick + 1) as usize, ..w })
                } else {
                    Some(w)
                },
                None => None,
            },
    {
        let group_max = self.config.groups.len();
        let mut w = match self.wizard.take() {
            Some(w) => w,
            None => return,
        };
        match w.step {
            WizardStep::PickGroup => {
                if w.group_pick < group_max {
                    w.group_pick = w.group_pick + 1;
                }
            },
            WizardStep::Key => {
                if w.key_options.len() > 0 && w.key_pick < w.key_options.len() - 1 {
                    w.key_pick = w.key_pick + 1;
                }
            },
            _ => {},
        }
        self.wizard = Some(w);
    }

    /// Goes back one step of the wizard (not before the group step), with
    /// the error cleared and the text field showing that step's answer.
    pub fn wizard_back(&mut self)
        ensures
            kept_but_wizard(*old(self), *final(self)),
            wizard_model(final(self).wizard) == match wizard_model(old(self).wizard) {
                Some(w) => if w.step == WizardStep::PickGroup {
                    Some(w)
                } else {
                    Some(moved_to(w, prev_step(w.step, w.group_idx)))
                },
                None => None,
            },
    {
        let mut w = match self.wizard.take() {
            Some(w) => w,
            None => return,
        };
        let new_step = match w.step {
            WizardStep::PickGroup => {
                self.wizard = Some(w);
                return;
            },
            WizardStep::NewGroupName => WizardStep::PickGroup,
            WizardStep::ServerName => {
                if w.group_idx.is_none() {
                    WizardStep::NewGroupName
                } else {
                    WizardStep::PickGroup
                }
            },
            WizardStep::Host => WizardStep::ServerName,
            WizardStep::User => WizardStep::Host,
            WizardStep::Key => WizardStep::User,
            WizardStep::Port => WizardStep::Key,
            WizardStep::Flags => WizardStep::Port,
            WizardStep::Tags => WizardStep::Flags,
            WizardStep::Description => WizardStep::Tags,
            WizardStep::Confirm => WizardStep::Description,
        };
        w.step = new_step;
        w.error = None;
        sync_input(&mut w);
        self.wizard = Some(w);
    }

    /// Up arrow in the wizard: moves the group or key highlight one entry up
    /// (stopping at the first) on those steps, and goes back one step on the
    /// others.
    pub fn wizard_up(&mut self)
        ensures
            kept_but_wizard(*old(self), *final(self)),
            wizard_model(final(self).wizard) == match wizard_model(old(self).wizard) {
                Some(w) => if w.step == WizardStep::PickGroup {
                    Some(WizardModel { group_pick: if w.group_pick > 0 { (w.group_pick - 1) as usize } else { 0 }, ..w })
                } else if w.step == WizardStep::Key {
                    Some(WizardModel { key_pick: if w.key_pick > 0 { (w.key_pick - 1) as usize } else { 0 }, ..w })
                } else {
                    Some(moved_to(w, prev_step(w.step, w.group_idx)))
                },
                None => None,
            },
    {
        let mut w = match self.wizard.take() {
            Some(w) => w,
            None => return,
        };
        match w.step {
            WizardStep::PickGroup => {
                if w.group_pick > 0 {
                    w.group_pick = w.group_pick - 1;
                }
                self.wizard = Some(w);
                return;
            },
            WizardStep::Key => {
                if w.key_pick > 0 {
                    w.key_pick = w.key_pick - 1;
                }
                self.wizard = Some(w);
                return;
            },
            _ => {},
        }
        self.wizard = Some(w);
        self.wizard_back();
    }
}

/// An answer as an optional setting: its trimmed text, or nothing when
/// that is empty.
pub fn opt_string(s: &str) -> (res: Option<String>)
    ensures
        opt_text(res) == nonblank(s@),
{
    let t = trim(s);
    if t.as_str().is_empty() {
        None
    } else {
        Some(t)
    }
}

/// The tags of a comma-separated answer: each part trimmed, empty parts
/// dropped.
pub fn parse_tags(s: &str) -> (res: Vec<String>)
    ensures
        text_seq(res@) == tag_list(s@),
{
    let cs = chars_of(s);
    let pieces = split_chars(&cs, ',');
    let ghost ps = char_vecs(pieces@);
    let ghost f = |p: Seq<char>| trimmed(p);
    let ghost keep = |t: Seq<char>| t.len() > 0;
    let mut out: Vec<String> = Vec::new();
    let n = pieces.len();
    let mut i: usize = 0;
    while i < n
        invariant
            i <= n,
            n == pieces@.len(),
            ps == char_vecs(pieces@),
            f == (|p: Seq<char>| trimmed(p)),
            keep == (|t: Seq<char>| t.len() > 0),
            text_seq(out@) == ps.take(i as int).map_values(f).filter(keep),
        decreases n - i,
    {
        let t = trim_chars(&pieces[i]);
        proof {
            assert(ps[i as int] == pieces@[i as int]@);
            lemma_take_succ(ps, i as int);
            lemma_map_push(ps.take(i as int), ps[i as int], f);
            let m = ps.take(i + 1).map_values(f);
            assert(m.drop_last() == ps.take(i as int).map_values(f));
            assert(m.last() == t@);
            reveal_with_fuel(Seq::<_>::filter, 1);
            assert(m.filter(keep) == if keep(t@) {
                ps.take(i as int).map_values(f).filter(keep).push(t@)
            } else {
                ps.take(i as int).map_values(f).filter(keep)
            });
        }
        if t.len() > 0 {
            let ts = string_from_chars(&t);
            let ghost before = out@;
            out.push(ts);
            proof {
                lemma_map_push(before, ts, |s: String| s@);
            }
        }
        i = i + 1;
    }
    assert(ps.take(n as int) =~= ps);
    out
}

/// The message and kind of an optional status line.
pub open spec fn flash_model(o: Option<Flash>) -> Option<(FlashKind, Seq<char>)> {
    match o {
        Some(f) => Some((f.kind, f.message@)),
        None => None,
    }
}

impl App {
    /// When the wizard is on the host step: the part of the typed host
    /// (trimmed) that is to be tried as an IP address. The program parses
    /// it and passes the outcome to `wizard_advance`.
    pub fn host_candidate(&self) -> (res: Option<String>)
        ensures
            match wizard_model(self.wizard) {
                Some(w) => if w.step == WizardStep::Host {
                    opt_text(res) == Some(ip_candidate_of(trimmed(w.input)))
                } else {
                    res is None
                },
                None => res is None,
            },
    {
        match &self.wizard {
            Some(w) => {
                if w.step == WizardStep::Host {
                    let v = trim(w.input.as_str());
                    Some(ip_candidate(v.as_str()))
                } else {
                    None
                }
            },
            None => None,
        }
    }

    /// Enter in the wizard. On every step but the last, the typed answer is
    /// checked and stored, or refused with an error (`advanced`); on the
    /// confirm step the wizard is committed (`commit_wizard`). `host_is_ip`
    /// says whether `host_candidate()` parses as an IP address.
    pub fn wizard_advance(&mut self, host_is_ip: bool) -> (res: Option<PendingSave>)
        requires
            match wizard_model(old(self).wizard) {
                Some(w) => w.step == WizardStep::Confirm && draft_port(w.draft) is Some ==> wizard_fits(
                    w,
                    old(self).config@.groups,
                ),
                None => true,
            },
        ensures
            match wizard_model(old(self).wizard) {
                None => res is None && kept_but_wizard(*old(self), *final(self)) && final(self).wizard is None,
                Some(w) => if w.step != WizardStep::Confirm {
                    &&& res is None
                    &&& kept_but_wizard(*old(self), *final(self))
                    &&& wizard_model(final(self).wizard) == Some(
                        advanced(w, old(self).config@.groups.len(), host_is_ip),
                    )
                } else {
                    committed(*old(self), *final(self), w, res)
                },
            },
    {
        let groups_len = self.config.groups.len();
        let mut w = match self.wizard.take() {
            Some(w) => w,
            None => return None,
        };
        if w.step == WizardStep::Confirm {
            self.wizard = Some(w);
            return self.commit_wizard();
        }
        let ghost w0 = w@;
        let v = trim(w.input.as_str());
        match w.step {
            WizardStep::PickGroup => {
                if w.group_pick < groups_len {
                    w.group_idx = Some(w.group_pick);
                    w.step = WizardStep::ServerName;
                } else {
                    w.group_idx = None;
                    w.step = WizardStep::NewGroupName;
                }
                w.error = None;
                sync_input(&mut w);
            },
            WizardStep::NewGroupName => {
                if v.as_str().is_empty() {
                    w.error = Some(String::from_str("group name cannot be empty"));
                } else {
                    w.new_group_name = v;
                    w.step = WizardStep::ServerName;
                    w.error = None;
                    sync_input(&mut w);
                }
            },
            WizardStep::ServerName => {
                if v.as_str().is_empty() {
                    w.error = Some(String::from_str("server name required"));
                } else {
                    w.draft.name = v;
                    w.step = WizardStep::Host;
                    w.error = None;
                    sync_input(&mut w);
                }
            },
            WizardStep::Host => {
                if v.as_str().is_empty() {
                    w.error = Some(String::from_str("host required"));
                } else {
                    match validate_host(v.as_str(), host_is_ip) {
                        Some(reason) => {
                            w.error = Some(reason);
                        },
                        None => {
                            w.draft.host = v;
                            w.step = WizardStep::User;
                            w.error = None;
                            sync_input(&mut w);
                        },
                    }
                }
            },
            WizardStep::User => {
                w.draft.user = v;
                w.step = WizardStep::Key;
                w.error = None;
                sync_input(&mut w);
            },
            WizardStep::Key => {
                let chosen = if w.key_pick < w.key_options.len() {
                    w.key_options[w.key_pick].path.clone()
                } else {
                    String::new()
                };
                proof {
                    if w.key_pick < w.key_options@.len() {
                        assert(key_models(w.key_options@)[w.key_pick as int].0 == w.key_options@[w.key_pick as int].path@);
                    }
                }
                w.draft.key = chosen;
                w.step = WizardStep::Port;
                w.error = None;
                sync_input(&mut w);
            },
            WizardStep::Port => {
                let mut bad: Option<String> = None;
                if !v.as_str().is_empty() {
                    match parse_u16(v.as_str()) {
                        None => {
                            bad = Some(concat("invalid port: ", v.as_str()));
                        },
                        Some(p) => {
                            if p == 0 {
                                bad = Some(String::from_str("port must be between 1 and 65535"));
                            }
                        },
                    }
                }
                match bad {
                    Some(e) => {
                        w.error = Some(e);
                    },
                    None => {
                        w.draft.port = v;
                        w.step = WizardStep::Flags;
                        w.error = None;
                        sync_input(&mut w);
                    },
                }
            },
            WizardStep::Flags => {
                w.draft.flags = v;
                w.step = WizardStep::Tags;
                w.error = None;
                sync_input(&mut w);
            },
            WizardStep::Tags => {
                w.draft.tags = v;
                w.step = WizardStep::Description;
                w.error = None;
                sync_input(&mut w);
            },
            WizardStep::Description => {
                w.draft.description = v;
                w.step = WizardStep::Confirm;
                w.error = None;
                sync_input(&mut w);
            },
            WizardStep::Confirm => {},
        }
        assert(w@ == advanced(w0, groups_len as nat, host_is_ip));
        self.wizard = Some(w);
        None
    }

    /// Commits the wizard. When the draft's port does not read as a port,
    /// the wizard goes back to the port step with an error. Otherwise the
    /// wizard is closed and the configuration with the drafted server placed
    /// (`placed`) and empty groups dropped is asked to be written; nothing
    /// else changes until the write is finished with `finish_save`.
    fn commit_wizard(&mut self) -> (res: Option<PendingSave>)
        requires
            old(self).wizard matches Some(w) && w@.step == WizardStep::Confirm,
            draft_port(old(self).wizard->0@.draft) is Some ==> wizard_fits(old(self).wizard->0@, old(self).config@.groups),
        ensures
            committed(*old(self), *final(self), old(self).wizard->0@, res),
    {
        let mut w = match self.wizard.take() {
            Some(w) => w,
            None => return None,
        };
        let ghost w0 = w@;
        let ghost groups = self.config@.groups;
        let port = if w.draft.port.as_str().is_empty() {
            None
        } else {
            match parse_u16(w.draft.port.as_str()) {
                Some(p) => Some(p),
                None => {
                    w.error = Some(concat("invalid port: ", w.draft.port.as_str()));
                    w.step = WizardStep::Port;
                    sync_input(&mut w);
                    self.wizard = Some(w);
                    return None;
                },
            }
        };
        let tags = parse_tags(w.draft.tags.as_str());
        let server = Server {
            name: w.draft.name.clone(),
            host: w.draft.host.clone(),
            user: opt_string(w.draft.user.as_str()),
            key: opt_string(w.draft.key.as_str()),
            port,
            flags: opt_string(w.draft.flags.as_str()),
            tags,
            description: opt_string(w.draft.description.as_str()),
        };
        let ghost sm = server@;
        assert(sm == drafted_server(w0.draft, port));
        let mut new_config = self.config.clone();
        assert(group_models(new_config.groups@).len() == new_config.groups@.len());
        let target_gi = match w.group_idx {
            Some(i) => i,
            None => {
                let ghost before = new_config.groups@;
                let g = Group {
                    name: w.new_group_name.clone(),
                    icon: None,
                    user: None,
                    key: None,
                    port: None,
                    servers: Vec::new(),
                };
                assert(server_models(g.servers@) =~= Seq::<ServerModel>::empty());
                assert(g@ == bare_group(w0.new_group_name));
                new_config.groups.push(g);
                proof {
                    lemma_map_push(before, g, |g: Group| g@);
                }
                new_config.groups.len() - 1
            },
        };
        let ghost gs = group_models(new_config.groups@);
        assert(gs == with_target(groups, w0).0);
        assert(target_gi as int == with_target(groups, w0).1);
        let server_name = server.name.clone();
        let target_name = new_config.groups[target_gi].name.clone();
        let new_si: usize;
        let verb: String;
        match w.mode {
            WizardMode::New => {
                let mut g = new_config.groups[target_gi].clone();
                assert(g@ == gs[target_gi as int]);
                let ghost gsv = g.servers@;
                g.servers.push(server);
                proof {
                    lemma_map_push(gsv, server, |s: Server| s@);
                }
                assert(g@ == with_servers(gs[target_gi as int], gs[target_gi as int].servers.push(sm)));
                new_si = g.servers.len() - 1;
                new_config.groups.set(target_gi, g);
                verb = String::from_str("added");
                assert(group_models(new_config.groups@) =~= placed(groups, w0, sm).0);
            },
            WizardMode::Edit { gi: orig_gi, si: orig_si } => {
                if target_gi == orig_gi {
                    let mut g = new_config.groups[target_gi].clone();
                    g.servers.set(orig_si, server);
                    assert(server_models(g.servers@) =~= gs[target_gi as int].servers.update(orig_si as int, sm));
                    new_config.groups.set(target_gi, g);
                    new_si = orig_si;
                    verb = String::from_str("updated");
                    assert(group_models(new_config.groups@) =~= placed(groups, w0, sm).0);
                } else {
                    let mut og = new_config.groups[orig_gi].clone();
                    og.servers.remove(orig_si);
                    assert(server_models(og.servers@) =~= gs[orig_gi as int].servers.remove(orig_si as int));
                    new_config.groups.set(orig_gi, og);
                    let ghost g1 = group_models(new_config.groups@);
                    assert(g1 =~= gs.update(orig_gi as int, with_servers(gs[orig_gi as int], gs[orig_gi as int].servers.remove(orig_si as int))));
                    let mut g = new_config.groups[target_gi].clone();
                    assert(g@ == g1[target_gi as int]);
                    let ghost gsv = g.servers@;
                    g.servers.push(server);
                    proof {
                        lemma_map_push(gsv, server, |s: Server| s@);
                    }
                    assert(g@ == with_servers(g1[target_gi as int], g1[target_gi as int].servers.push(sm)));
                    new_si = g.servers.len() - 1;
                    new_config.groups.set(target_gi, g);
                    verb = String::from_str("moved");
                    assert(group_models(new_config.groups@) =~= placed(groups, w0, sm).0);
                }
            },
        }
        assert(new_si as int == placed(groups, w0, sm).1);
        prune_empty_groups(&mut new_config);
        Some(
            PendingSave {
                config: new_config,
                reason: SaveReason::Wizard { wizard: w, target_name, new_si, verb, server_name },
            },
        )
    }
}

/// What committing wizard `w` does to the browser `a`, giving `b` and the
/// save request `res`.
pub open spec fn committed(a: App, b: App, w: WizardModel, res: Option<PendingSave>) -> bool {
    &&& kept_but_wizard(a, b)
    &&& match draft_port(w.draft) {
        None => {
            &&& res is None
            &&& wizard_model(b.wizard) == Some(
                synced(WizardModel { step: WizardStep::Port, error: Some("invalid port: "@ + w.draft.port), ..w }),
            )
        },
        Some(port) => {
            let server = drafted_server(w.draft, port);
            let (gs, t) = with_target(a.config@.groups, w);
            let (pg, nsi) = placed(a.config@.groups, w, server);
            &&& b.wizard is None
            &&& res matches Some(p)
            &&& p.config@ == (ConfigModel { defaults: a.config@.defaults, groups: pruned(pg) })
            &&& p.reason matches SaveReason::Wizard { wizard, target_name, new_si, verb, server_name }
            &&& wizard@ == w
            &&& target_name@ == gs[t].name
            &&& new_si as int == nsi
            &&& verb@ == wizard_verb(w)
            &&& server_name@ == w.draft.name
        },
    }
}

fn position_of_row(rows: &Vec<Row>, r: Row) -> (res: Option<usize>)
    ensures
        match res {
            Some(i) => i < rows@.len() && row_position(rows@, r) == i,
            None => row_position(rows@, r) == -1,
        },
{
    let n = rows.len();
    let mut i: usize = 0;
    while i < n
        invariant
            i <= n,
            n == rows@.len(),
            forall|j: int| 0 <= j < i ==> rows@[j] != r,
        decreases n - i,
    {
        if rows[i] == r {
            proof {
                lemma_row_position(rows@, r, i as int);
            }
            return Some(i);
        }
        i = i + 1;
    }
    proof {
        lemma_row_position(rows@, r, n as int);
    }
    None
}

proof fn lemma_row_position(rows: Seq<Row>, r: Row, i: int)
    requires
        0 <= i <= rows.len(),
        i < rows.len() ==> rows[i] == r,
        forall|j: int| 0 <= j < i ==> rows[j] != r,
    ensures
        row_position(rows, r) == if i < rows.len() {
            i
        } else {
            -1
        },
    decreases rows.len(),
{
    if rows.len() > 0 && i > 0 {
        assert forall|j: int| 0 <= j < i - 1 implies rows.drop_first()[j] != r by {
            assert(rows.drop_first()[j] == rows[j + 1]);
        }
        lemma_row_position(rows.drop_first(), r, i - 1);
    }
}

/// The selection after the wizard's server was saved: on its row when that
/// row is shown, else kept in range.
pub open spec fn selection_on(rows: Seq<Row>, r: Row, selected: usize) -> usize {
    let p = row_position(rows, r);
    if p >= 0 {
        p as usize
    } else {
        clamped(selected, rows.len())
    }
}

/// What finishing a save does to browser `a`, giving `b`, for the pending
/// save `p` and the outcome of the write (`Ok` when it succeeded, else the
/// error text).
pub open spec fn finished(a: App, b: App, p: PendingSave, outcome: Result<(), String>) -> bool {
    match p.reason {
        SaveReason::Rename { dialog, old_name, new_name } => match outcome {
            Ok(_) => {
                &&& b.config@ == p.config@
                &&& b.expanded@ == a.expanded@
                &&& b.selected == a.selected
                &&& b.query@ == a.query@
                &&& b.wizard == a.wizard
                &&& b.delete_confirm == a.delete_confirm
                &&& b.rename_group == a.rename_group
                &&& flash_model(b.flash) == Some((FlashKind::Success, "✓ renamed "@ + old_name@ + " → "@ + new_name@))
            },
            Err(e) => {
                &&& b.config@ == a.config@
                &&& b.expanded@ == a.expanded@
                &&& b.selected == a.selected
                &&& b.query@ == a.query@
                &&& b.wizard == a.wizard
                &&& b.delete_confirm == a.delete_confirm
                &&& b.flash == a.flash
                &&& b.rename_group matches Some(r)
                &&& r.gi == dialog.gi
                &&& r.input@ == dialog.input@
                &&& opt_text(r.error) == Some("save failed: "@ + e@)
            },
        },
        SaveReason::Delete { removed } => match outcome {
            Ok(_) => {
                let ex = reconciled(a.config@.groups, a.expanded@, p.config@.groups);
                &&& b.config@ == p.config@
                &&& b.expanded@ == ex
                &&& b.selected == clamped(a.selected, visible(p.config@.groups, ex, a.query@).len())
                &&& b.query@ == a.query@
                &&& b.wizard == a.wizard
                &&& b.delete_confirm == a.delete_confirm
                &&& b.rename_group == a.rename_group
                &&& flash_model(b.flash) == Some((FlashKind::Success, "✓ deleted "@ + removed@))
            },
            Err(e) => {
                &&& b.config@ == a.config@
                &&& b.expanded@ == a.expanded@
                &&& b.selected == a.selected
                &&& b.query@ == a.query@
                &&& b.wizard == a.wizard
                &&& b.delete_confirm == a.delete_confirm
                &&& b.rename_group == a.rename_group
                &&& flash_model(b.flash) == Some((FlashKind::Failure, "✗ delete failed: "@ + e@))
            },
        },
        SaveReason::Wizard { wizard, target_name, new_si, verb, server_name } => match outcome {
            Ok(_) => {
                let ng = p.config@.groups;
                let ex = reconciled(a.config@.groups, a.expanded@, ng);
                let t = first_named(ng, target_name@);
                &&& b.config@ == p.config@
                &&& b.query@.len() == 0
                &&& b.wizard == a.wizard
                &&& b.delete_confirm == a.delete_confirm
                &&& b.rename_group == a.rename_group
                &&& flash_model(b.flash) == Some((FlashKind::Success, "✓ "@ + verb@ + " "@ + server_name@))
                &&& if t >= 0 {
                    &&& lowercase(b.query@).len() == 0
                    &&& b.expanded@ == ex.update(t, true)
                    &&& b.selected == selection_on(
                        visible(ng, b.expanded@, b.query@),
                        Row::Server(t as usize, new_si),
                        a.selected,
                    )
                } else {
                    &&& b.expanded@ == ex
                    &&& b.selected == clamped(a.selected, visible(ng, ex, b.query@).len())
                }
            },
            Err(e) => {
                &&& b.config@ == a.config@
                &&& b.expanded@ == a.expanded@
                &&& b.selected == a.selected
                &&& b.query@ == a.query@
                &&& b.delete_confirm == a.delete_confirm
                &&& b.rename_group == a.rename_group
                &&& b.flash == a.flash
                &&& wizard_model(b.wizard) == Some(WizardModel { error: Some("save failed: "@ + e@), ..wizard@ })
            },
        },
    }
}

impl App {
    /// Finishes a save asked for by `commit_delete`, `commit_rename_group`
    /// or `wizard_advance`, once the program has tried to write
    /// `pending.config`: on success the new configuration takes effect (with
    /// fold flags carried over by group name, and the selection kept in
    /// range or moved onto the saved server) and a success message is shown;
    /// on failure the configuration is kept and the error is shown where the
    /// change was asked for.
    pub fn finish_save(&mut self, pending: PendingSave, outcome: Result<(), String>)
        ensures
            finished(*old(self), *final(self), pending, outcome),
    {
        let ghost p0 = pending;
        let PendingSave { config: new_config, reason } = pending;
        match reason {
            SaveReason::Rename { mut dialog, old_name, new_name } => match outcome {
                Ok(_) => {
                    self.config = new_config;
                    let mut msg = String::from_str("✓ renamed ");
                    msg.append(old_name.as_str());
                    msg.append(" → ");
                    msg.append(new_name.as_str());
                    self.flash = Some(Flash::ok(msg));
                },
                Err(e) => {
                    dialog.error = Some(concat("save failed: ", e.as_str()));
                    self.rename_group = Some(dialog);
                },
            },
            SaveReason::Delete { removed } => match outcome {
                Ok(_) => {
                    let new_expanded = reconcile_expanded(
                        self.config.groups.as_slice(),
                        self.expanded.as_slice(),
                        new_config.groups.as_slice(),
                    );
                    self.config = new_config;
                    self.expanded = new_expanded;
                    self.clamp_selection();
                    self.flash = Some(Flash::ok(concat("✓ deleted ", removed.as_str())));
                },
                Err(e) => {
                    self.flash = Some(Flash::err(concat("✗ delete failed: ", e.as_str())));
                },
            },
            SaveReason::Wizard { mut wizard, target_name, new_si, verb, server_name } => match outcome {
                Ok(_) => {
                    let new_target_gi = position_of_name(new_config.groups.as_slice(), &target_name);
                    let new_expanded = reconcile_expanded(
                        self.config.groups.as_slice(),
                        self.expanded.as_slice(),
                        new_config.groups.as_slice(),
                    );
                    self.config = new_config;
                    self.expanded = new_expanded;
                    self.query = String::new();
                    match new_target_gi {
                        Some(gi) => {
                            self.expanded.set(gi, true);
                            let rows = self.visible_rows();
                            match position_of_row(&rows, Row::Server(gi, new_si)) {
                                Some(idx) => {
                                    self.selected = idx;
                                },
                                None => {
                                    self.clamp_selection();
                                },
                            }
                        },
                        None => {
                            self.clamp_selection();
                        },
                    }
                    let mut msg = String::from_str("✓ ");
                    msg.append(verb.as_str());
                    msg.append(" ");
                    msg.append(server_name.as_str());
                    self.flash = Some(Flash::ok(msg));
                },
                Err(e) => {
                    wizard.error = Some(concat("save failed: ", e.as_str()));
                    self.wizard = Some(wizard);
                },
            },
        }
    }
}

/// A key as the browser tells keys apart.
#[derive(Debug, Clone, Copy, PartialEq, Eq, Structural)]
pub enum Key {
    Char(char),
    Esc,
    Enter,
    Up,
    Down,
    Left,
    Right,
    Backspace,
    Other,
}

/// A key press, with whether Control was held.
#[derive(Debug, Clone, Copy, PartialEq, Eq, Structural)]
pub struct KeyPress {
    pub key: Key,
    pub ctrl: bool,
}

/// The operation a key press stands for in the state the browser is in.
/// The program performs it with the method of the same name (the two wizard
/// openings after scanning `~/.ssh` for keys).
#[derive(Debug, Clone, Copy, PartialEq, Eq, Structural)]
pub enum Command {
    Quit,
    CancelRename,
    CommitRename,
    RenameBackspace,
    RenameInput(char),
    CancelDelete,
    CommitDelete,
    CancelWizard,
    WizardAdvance,
    WizardUp,
    WizardDown,
    WizardBack,
    WizardBackspace,
    WizardInput(char),
    ClearQuery,
    MoveDown,
    MoveUp,
    Enter,
    Toggle,
    QueryBackspace,
    QueryInput(char),
    StartWizard,
    StartWizardEdit,
    StartDelete,
    StartRename,
    Ignore,
}

/// The operation for a key press: Control-C quits anywhere; otherwise the
/// rename dialog, then the delete confirmation, then the wizard, then the
/// host list takes the key (see the key table of the README).
pub open spec fn command_for(a: App, press: KeyPress) -> Command {
    if press.ctrl && press.key == Key::Char('c') {
        Command::Quit
    } else if a.rename_group is Some {
        match press.key {
            Key::Esc => Command::CancelRename,
            Key::Enter => Command::CommitRename,
            Key::Backspace => Command::RenameBackspace,
            Key::Char(c) => if !press.ctrl {
                Command::RenameInput(c)
            } else {
                Command::Ignore
            },
            _ => Command::Ignore,
        }
    } else if a.delete_confirm is Some {
        match press.key {
            Key::Esc => Command::CancelDelete,
            Key::Char(c) => if c == 'n' || c == 'N' {
                Command::CancelDelete
            } else if c == 'y' || c == 'Y' {
                Command::CommitDelete
            } else {
                Command::Ignore
            },
            Key::Enter => Command::CommitDelete,
            _ => Command::Ignore,
        }
    } else if a.wizard is Some {
        match press.key {
            Key::Esc => Command::CancelWizard,
            Key::Enter => Command::WizardAdvance,
            Key::Up => Command::WizardUp,
            Key::Down => Command::WizardDown,
            Key::Left => Command::WizardBack,
            Key::Backspace => Command::WizardBackspace,
            Key::Char(c) => Command::WizardInput(c),
            _ => Command::Ignore,
        }
    } else {
        match press.key {
            Key::Esc => if a.query@.len() == 0 {
                Command::Quit
            } else {
                Command::ClearQuery
            },
            Key::Down => Command::MoveDown,
            Key::Up => Command::MoveUp,
            Key::Enter => Command::Enter,
            Key::Right => Command::Enter,
            Key::Left => Command::Toggle,
            Key::Backspace => Command::QueryBackspace,
            Key::Char(c) => if press.ctrl {
                if c == 'a' {
                    Command::StartWizard
                } else if c == 'e' {
                    Command::StartWizardEdit
                } else if c == 'd' {
                    Command::StartDelete
                } else if c == 'r' {
                    Command::StartRename
                } else {
                    Command::Ignore
                }
            } else {
                Command::QueryInput(c)
            },
            _ => Command::Ignore,
        }
    }
}

/// How an ssh session ended, as the program saw it.
#[derive(Debug)]
pub enum SessionEnd {
    /// ssh ran and exited; `success` when its status was success, `code` its
    /// exit code when it exited normally.
    Exited { success: bool, code: Option<i32> },
    /// ssh could not be run; the text says why.
    SpawnFailed(String),
}

/// The status message after a session: none after success, else what
/// went wrong.
pub open spec fn session_message(name: Seq<char>, end: SessionEnd) -> Option<Seq<char>> {
    match end {
        SessionEnd::Exited { success, code } => if success {
            None
        } else if code == Some(255i32) {
            Some("✗ "@ + name + " — connection failed"@)
        } else {
            Some("✗ "@ + name + " — exit "@ + match code {
                Some(c) => signed_decimal(c as int),
                None => "killed"@,
            })
        },
        SessionEnd::SpawnFailed(why) => Some("✗ couldn't run ssh: "@ + why@),
    }
}

/// The failure message to show after an ssh session with the server named
/// `name`, if any.
pub fn session_flash(name: &str, end: &SessionEnd) -> (res: Option<Flash>)
    ensures
        match (res, session_message(name@, *end)) {
            (Some(f), Some(m)) => f.kind == FlashKind::Failure && f.message@ == m,
            (None, None) => true,
            _ => false,
        },
{
    match end {
        SessionEnd::Exited { success, code } => {
            if *success {
                return None;
            }
            let mut msg = concat("✗ ", name);
            match code {
                Some(c) => {
                    if *c == 255 {
                        msg.append(" — connection failed");
                    } else {
                        msg.append(" — exit ");
                        let d = decimal_i32(*c);
                        msg.append(d.as_str());
                    }
                },
                None => {
                    msg.append(" — exit killed");
                    proof {
                        reveal_strlit(" — exit killed");
                        reveal_strlit(" — exit ");
                        reveal_strlit("killed");
                        assert(" — exit killed"@ =~= " — exit "@ + "killed"@);
                    }
                },
            }
            Some(Flash::err(msg))
        },
        SessionEnd::SpawnFailed(why) => Some(Flash::err(concat("✗ couldn't run ssh: ", why.as_str()))),
    }
}

impl App {
    /// Takes a key press: clears the status line (except for Control-C) and
    /// says which operation the key stands for.
    pub fn key_command(&mut self, press: KeyPress) -> (cmd: Command)
        ensures
            cmd == command_for(*old(self), press),
            final(self).flash == (if press.ctrl && press.key == Key::Char('c') {
                old(self).flash
            } else {
                None
            }),
            final(self).config == old(self).config,
            final(self).expanded == old(self).expanded,
            final(self).selected == old(self).selected,
            final(self).query == old(self).query,
            final(self).wizard == old(self).wizard,
            final(self).delete_confirm == old(self).delete_confirm,
            final(self).rename_group == old(self).rename_group,
    {
        if press.ctrl && press.key == Key::Char('c') {
            return Command::Quit;
        }
        self.flash = None;
        if self.rename_group.is_some() {
            return match press.key {
                Key::Esc => Command::CancelRename,
                Key::Enter => Command::CommitRename,
                Key::Backspace => Command::RenameBackspace,
                Key::Char(c) => if !press.ctrl {
                    Command::RenameInput(c)
                } else {
                    Command::Ignore
                },
                _ => Command::Ignore,
            };
        }
        if self.delete_confirm.is_some() {
            return match press.key {
                Key::Esc => Command::CancelDelete,
                Key::Char(c) => if c == 'n' || c == 'N' {
                    Command::CancelDelete
                } else if c == 'y' || c == 'Y' {
                    Command::CommitDelete
                } else {
                    Command::Ignore
                },
                Key::Enter => Command::CommitDelete,
                _ => Command::Ignore,
            };
        }
        if self.wizard.is_some() {
            return match press.key {
                Key::Esc => Command::CancelWizard,
                Key::Enter => Command::WizardAdvance,
                Key::Up => Command::WizardUp,
                Key::Down => Command::WizardDown,
                Key::Left => Command::WizardBack,
                Key::Backspace => Command::WizardBackspace,
                Key::Char(c) => Command::WizardInput(c),
                _ => Command::Ignore,
            };
        }
        match press.key {
            Key::Esc => if self.query.as_str().is_empty() {
                Command::Quit
            } else {
                Command::ClearQuery
            },
            Key::Down => Command::MoveDown,
            Key::Up => Command::MoveUp,
            Key::Enter => Command::Enter,
            Key::Right => Command::Enter,
            Key::Left => Command::Toggle,
            Key::Backspace => Command::QueryBackspace,
            Key::Char(c) => if press.ctrl {
                if c == 'a' {
                    Command::StartWizard
                } else if c == 'e' {
                    Command::StartWizardEdit
                } else if c == 'd' {
                    Command::StartDelete
                } else if c == 'r' {
                    Command::StartRename
                } else {
                    Command::Ignore
                }
            } else {
                Command::QueryInput(c)
            },
            _ => Command::Ignore,
        }
    }

    /// Clears the query and brings the selection back into the rows.
    pub fn clear_query(&mut self)
        ensures
            final(self).query@.len() == 0,
            final(self).selected == clamped(
                old(self).selected,
                visible(group_models(old(self).config.groups@), old(self).expanded@, final(self).query@).len(),
            ),
            final(self).config@ == old(self).config@,
            final(self).expanded@ == old(self).expanded@,
            final(self).wizard == old(self).wizard,
            final(self).delete_confirm == old(self).delete_confirm,
            final(self).rename_group == old(self).rename_group,
            final(self).flash == old(self).flash,
    {
        self.query = String::new();
        self.clamp_selection();
    }

    /// Adds a character to the query and brings the selection back into the
    /// rows.
    pub fn query_push(&mut self, c: char)
        ensures
            final(self).query@ == old(self).query@.push(c),
            final(self).selected == clamped(
                old(self).selected,
                visible(group_models(old(self).config.groups@), old(self).expanded@, final(self).query@).len(),
            ),
            final(self).config@ == old(self).config@,
            final(self).expanded@ == old(self).expanded@,
            final(self).wizard == old(self).wizard,
            final(self).delete_confirm == old(self).delete_confirm,
            final(self).rename_group == old(self).rename_group,
            final(self).flash == old(self).flash,
    {
        push_char(&mut self.query, c);
        self.clamp_selection();
    }

    /// Deletes the last character of the query and brings the selection
    /// back into the rows.
    pub fn query_pop(&mut self)
        ensures
            final(self).query@ == (if old(self).query@.len() > 0 {
                old(self).query@.drop_last()
            } else {
                old(self).query@
            }),
            final(self).selected == clamped(
                old(self).selected,
                visible(group_models(old(self).config.groups@), old(self).expanded@, final(self).query@).len(),
            ),
            final(self).config@ == old(self).config@,
            final(self).expanded@ == old(self).expanded@,
            final(self).wizard == old(self).wizard,
            final(self).delete_confirm == old(self).delete_confirm,
            final(self).rename_group == old(self).rename_group,
            final(self).flash == old(self).flash,
    {
        pop_char(&mut self.query);
        self.clamp_selection();
    }
}

} // verus!
