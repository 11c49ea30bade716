//! Properties that hold across the operations of the browser.
use vstd::prelude::*;

use crate::app::{
    row_position, selection_on, SaveReason,
    committed, finished, flash_model, FlashKind, PendingSave,
    edit_start, key_choices, key_index, key_position, wizard_verb, KeyModel,
    toggled, LowerGroupModel,
    App, Command, Key, KeyPress, LowerServerModel, Row, WizardMode, WizardModel, WizardStep, advanced,
    after_delete, bare_group, clamped, command_for, draft_of, draft_port, drafted_server, first_named,
    group_matches, group_rows, is_expanded, lemma_lower_matches, listed_servers, lower_group,
    lower_group_matches, lower_groups, lower_server_matches, moved_down, moved_to, moved_up, nonblank, placed,
    prev_step, pruned, reconciled, rows_upto, server_listed, server_matches, server_rows, tag_list,
    text_or_empty, visible, with_name, with_servers, with_target, wizard_fits,
};
use crate::config::{
    ConfigModel, DEFAULT_PORT, DefaultsModel, GroupModel, ServerModel, first_set, port_of, sanitized,
    sanitized_config, sanitized_group, sanitized_opt, sanitized_server, sizes_fit, total_servers,
    unsafe_control,
};
use crate::host::{host_problem, hostname_ok, label_ok, without_final_dot};
use crate::ssh::{expanded, failure_text, last_nonblank, preview, ssh_argv};
use crate::text::{
    has_substring,
    lemma_decimal_digits, control_char, decimal, is_trimmed, joined, lemma_decimal_parses_back, lemma_trimmed_fixed,
    lemma_words_are_words, lowercase, split_on, split_scan, trim_end, trim_start, trimmed, white_space, words,
};

verus! {

/// Moving up undoes moving down, and moving down undoes moving up, and
/// both keep a selection that is on a row there.
pub proof fn law_up_undoes_down(selected: usize, n: nat)
    requires
        selected < n,
        n <= usize::MAX,
    ensures
        0 <= moved_down(selected, n) < n,
        0 <= moved_up(selected, n) < n,
        moved_up(moved_down(selected, n) as usize, n) == selected,
        moved_down(moved_up(selected, n) as usize, n) == selected,
{
    let s = selected as int;
    let m = n as int;
    if s + 1 < m {
        vstd::arithmetic::div_mod::lemma_small_mod((s + 1) as nat, n);
    } else {
        vstd::arithmetic::div_mod::lemma_mod_self_0(m);
    }
    if s == 0 {
        vstd::arithmetic::div_mod::lemma_mod_self_0(m);
    } else {
        vstd::arithmetic::div_mod::lemma_small_mod(s as nat, n);
    }
}

/// After clamping, the selection is on a row, or 0 when there are none; a
/// selection already on a row is left alone.
pub proof fn law_clamp_in_range(selected: usize, n: nat)
    requires
        n <= usize::MAX,
    ensures
        n > 0 ==> clamped(selected, n) < n,
        n == 0 ==> clamped(selected, n) == 0,
        selected < n ==> clamped(selected, n) == selected,
{
}

/// A text without control characters other than tab.
pub open spec fn clean(s: Seq<char>) -> bool {
    forall|j: int| 0 <= j < s.len() ==> !unsafe_control(#[trigger] s[j])
}

/// An optional text that is clean when set.
pub open spec fn clean_opt(o: Option<Seq<char>>) -> bool {
    match o {
        Some(s) => clean(s),
        None => true,
    }
}

/// Every text of a server is clean.
pub open spec fn clean_server(s: ServerModel) -> bool {
    &&& clean(s.name)
    &&& clean(s.host)
    &&& clean_opt(s.user)
    &&& clean_opt(s.key)
    &&& clean_opt(s.flags)
    &&& clean_opt(s.description)
    &&& forall|k: int| 0 <= k < s.tags.len() ==> clean(#[trigger] s.tags[k])
}

/// Every text of a configuration is clean (the defaults' user and key, and
/// every text of every group and server).
pub open spec fn clean_config(c: ConfigModel) -> bool {
    &&& clean_opt(c.defaults.user)
    &&& clean_opt(c.defaults.key)
    &&& forall|i: int| 0 <= i < c.groups.len() ==> {
        let g = #[trigger] c.groups[i];
        &&& clean(g.name)
        &&& clean_opt(g.icon)
        &&& clean_opt(g.user)
        &&& clean_opt(g.key)
        &&& forall|k: int| 0 <= k < g.servers.len() ==> clean_server(#[trigger] g.servers[k])
    }
}

proof fn lemma_sanitized_text(s: Seq<char>)
    ensures
        clean(sanitized(s)),
        sanitized(sanitized(s)) == sanitized(s),
        sanitized(s).len() == s.len(),
{
    assert(!unsafe_control('?'));
    assert(sanitized(sanitized(s)) =~= sanitized(s));
}

proof fn lemma_sanitized_opt(o: Option<Seq<char>>)
    ensures
        clean_opt(sanitized_opt(o)),
        sanitized_opt(sanitized_opt(o)) == sanitized_opt(o),
{
    if let Some(s) = o {
        lemma_sanitized_text(s);
    }
}

proof fn lemma_sanitized_server(s: ServerModel)
    ensures
        clean_server(sanitized_server(s)),
        sanitized_server(sanitized_server(s)) == sanitized_server(s),
{
    lemma_sanitized_text(s.name);
    lemma_sanitized_text(s.host);
    lemma_sanitized_opt(s.user);
    lemma_sanitized_opt(s.key);
    lemma_sanitized_opt(s.flags);
    lemma_sanitized_opt(s.description);
    let t = s.tags.map_values(|t: Seq<char>| sanitized(t));
    assert forall|k: int| 0 <= k < t.len() implies clean(#[trigger] t[k]) by {
        lemma_sanitized_text(s.tags[k]);
    }
    assert forall|k: int| 0 <= k < t.len() implies #[trigger] sanitized(t[k]) == t[k] by {
        lemma_sanitized_text(s.tags[k]);
    }
    assert(t.map_values(|u: Seq<char>| sanitized(u)) =~= t);
}

proof fn lemma_sanitized_group(g: GroupModel)
    ensures
        ({
            let h = sanitized_group(g);
            &&& clean(h.name)
            &&& clean_opt(h.icon)
            &&& clean_opt(h.user)
            &&& clean_opt(h.key)
            &&& forall|k: int| 0 <= k < h.servers.len() ==> clean_server(#[trigger] h.servers[k])
        }),
        sanitized_group(sanitized_group(g)) == sanitized_group(g),
{
    lemma_sanitized_text(g.name);
    lemma_sanitized_opt(g.icon);
    lemma_sanitized_opt(g.user);
    lemma_sanitized_opt(g.key);
    let v = g.servers.map_values(|s: ServerModel| sanitized_server(s));
    assert forall|k: int| 0 <= k < v.len() implies clean_server(#[trigger] v[k]) by {
        lemma_sanitized_server(g.servers[k]);
    }
    assert forall|k: int| 0 <= k < v.len() implies #[trigger] sanitized_server(v[k]) == v[k] by {
        lemma_sanitized_server(g.servers[k]);
    }
    assert(v.map_values(|s: ServerModel| sanitized_server(s)) =~= v);
}

/// Cleaning a configuration leaves no control character other than tab in
/// any of its texts, keeps every text's length, and cleaning it again
/// changes nothing.
pub proof fn law_sanitize_cleans(c: ConfigModel)
    ensures
        clean_config(sanitized_config(c)),
        sanitized_config(sanitized_config(c)) == sanitized_config(c),
{
    lemma_sanitized_opt(c.defaults.user);
    lemma_sanitized_opt(c.defaults.key);
    let gs = c.groups.map_values(|g: GroupModel| sanitized_group(g));
    assert forall|i: int| 0 <= i < gs.len() implies {
        let g = #[trigger] gs[i];
        &&& clean(g.name)
        &&& clean_opt(g.icon)
        &&& clean_opt(g.user)
        &&& clean_opt(g.key)
        &&& forall|k: int| 0 <= k < g.servers.len() ==> clean_server(#[trigger] g.servers[k])
    } by {
        lemma_sanitized_group(c.groups[i]);
    }
    assert forall|i: int| 0 <= i < gs.len() implies #[trigger] sanitized_group(gs[i]) == gs[i] by {
        lemma_sanitized_group(c.groups[i]);
    }
    assert(gs.map_values(|g: GroupModel| sanitized_group(g)) =~= gs);
}

/// Without a query every server is listed, in order.
proof fn lemma_listed_all(servers: Seq<LowerServerModel>, q: Seq<char>, gm: bool, n: nat)
    requires
        q.len() == 0,
        n <= servers.len(),
        n <= usize::MAX + 1,
    ensures
        listed_servers(servers, q, gm, n) == Seq::new(n, |i: int| i as usize),
    decreases n,
{
    if n > 0 {
        lemma_listed_all(servers, q, gm, (n - 1) as nat);
        assert(Seq::new((n - 1) as nat, |i: int| i as usize).push((n - 1) as usize) =~= Seq::new(
            n,
            |i: int| i as usize,
        ));
    }
}

/// The rows of the first `n` groups when nothing filters: each group's row,
/// followed by the rows of all its servers when it is unfolded.
pub open spec fn unfiltered_rows(groups: Seq<GroupModel>, expanded: Seq<bool>, n: nat) -> Seq<Row>
    decreases n,
{
    if n == 0 {
        Seq::empty()
    } else {
        let gi = n - 1;
        unfiltered_rows(groups, expanded, (n - 1) as nat) + seq![Row::Group(gi as usize)] + if is_expanded(
            expanded,
            gi,
        ) {
            server_rows(gi, Seq::new(groups[gi].servers.len(), |i: int| i as usize))
        } else {
            Seq::empty()
        }
    }
}

/// With an empty query (its lowercase form empty), the host list shows
/// every group in order, each followed by all of its servers when it is
/// unfolded.
pub proof fn law_empty_query_lists_everything(groups: Seq<GroupModel>, expanded: Seq<bool>, query: Seq<char>)
    requires
        lowercase(query).len() == 0,
        sizes_fit(groups),
    ensures
        visible(groups, expanded, query) == unfiltered_rows(groups, expanded, groups.len()),
{
    lemma_unfiltered(groups, expanded, lowercase(query), groups.len());
}

proof fn lemma_unfiltered(groups: Seq<GroupModel>, expanded: Seq<bool>, q: Seq<char>, n: nat)
    requires
        q.len() == 0,
        n <= groups.len(),
        sizes_fit(groups),
    ensures
        rows_upto(lower_groups(groups), expanded, q, n) == unfiltered_rows(groups, expanded, n),
    decreases n,
{
    if n > 0 {
        let gi = n - 1;
        lemma_unfiltered(groups, expanded, q, (n - 1) as nat);
        let g = lower_groups(groups)[gi];
        assert(g.servers.len() == groups[gi].servers.len());
        let gm = lower_group_matches(g, q);
        lemma_listed_all(g.servers, q, gm, g.servers.len());
        assert(group_rows(gi, g, expanded, q) =~= seq![Row::Group(gi as usize)] + if is_expanded(
            expanded,
            gi,
        ) {
            server_rows(gi, Seq::new(g.servers.len(), |i: int| i as usize))
        } else {
            Seq::empty()
        });
    }
}

proof fn lemma_listed_match(servers: Seq<LowerServerModel>, q: Seq<char>, gm: bool, n: nat)
    requires
        n <= servers.len(),
        servers.len() <= usize::MAX,
    ensures
        forall|k: int|
            0 <= k < listed_servers(servers, q, gm, n).len() ==> {
                let si = #[trigger] listed_servers(servers, q, gm, n)[k];
                &&& si < n
                &&& server_listed(servers[si as int], q, gm)
            },
    decreases n,
{
    if n > 0 {
        lemma_listed_match(servers, q, gm, (n - 1) as nat);
        let prev = listed_servers(servers, q, gm, (n - 1) as nat);
        let cur = listed_servers(servers, q, gm, n);
        assert forall|k: int| 0 <= k < cur.len() implies {
            let si = #[trigger] cur[k];
            &&& si < n
            &&& server_listed(servers[si as int], q, gm)
        } by {
            if k < prev.len() {
                assert(cur[k] == prev[k]);
            } else {
                assert(cur[k] == (n - 1) as usize);
            }
        }
    }
}

/// Under a query, a row is shown only for a group that matches or has a
/// matching server, and a server row only when its group or the server
/// itself matches.
pub open spec fn rows_match(groups: Seq<GroupModel>, q: Seq<char>, rows: Seq<Row>) -> bool {
    forall|k: int|
        0 <= k < rows.len() ==> match #[trigger] rows[k] {
            Row::Group(gi) => gi < groups.len() && (group_matches(groups[gi as int], q) || exists|si: int|
                0 <= si < groups[gi as int].servers.len() && server_matches(
                    #[trigger] groups[gi as int].servers[si],
                    q,
                )),
            Row::Server(gi, si) => gi < groups.len() && si < groups[gi as int].servers.len() && (
            group_matches(groups[gi as int], q) || server_matches(
                groups[gi as int].servers[si as int],
                q,
            )),
        }
}

/// With a non-empty query (lowercased), only matching groups and servers
/// are shown: a server by its name, host or a tag, or because its group's
/// name matches.
pub proof fn law_filter_shows_only_matches(groups: Seq<GroupModel>, expanded: Seq<bool>, query: Seq<char>)
    requires
        lowercase(query).len() > 0,
        sizes_fit(groups),
    ensures
        rows_match(groups, lowercase(query), visible(groups, expanded, query)),
{
    lemma_rows_match(groups, expanded, lowercase(query), groups.len());
}

proof fn lemma_rows_match(groups: Seq<GroupModel>, expanded: Seq<bool>, q: Seq<char>, n: nat)
    requires
        q.len() > 0,
        n <= groups.len(),
        sizes_fit(groups),
    ensures
        rows_match(groups, q, rows_upto(lower_groups(groups), expanded, q, n)),
    decreases n,
{
    if n > 0 {
        let gi = n - 1;
        lemma_rows_match(groups, expanded, q, (n - 1) as nat);
        let g = lower_groups(groups)[gi];
        assert(g == lower_group(groups[gi]));
        lemma_lower_matches(groups[gi], q);
        let gm = lower_group_matches(g, q);
        let listed = listed_servers(g.servers, q, gm, g.servers.len());
        lemma_listed_match(g.servers, q, gm, g.servers.len());
        let prev = rows_upto(lower_groups(groups), expanded, q, (n - 1) as nat);
        let gr = group_rows(gi, g, expanded, q);
        assert(rows_match(groups, q, gr)) by {
            assert forall|k: int| 0 <= k < gr.len() implies match #[trigger] gr[k] {
                Row::Group(gi) => gi < groups.len() && (group_matches(groups[gi as int], q)
                    || exists|si: int|
                    0 <= si < groups[gi as int].servers.len() && server_matches(
                        #[trigger] groups[gi as int].servers[si],
                        q,
                    )),
                Row::Server(gi, si) => gi < groups.len() && si < groups[gi as int].servers.len() && (
                group_matches(groups[gi as int], q) || server_matches(
                    groups[gi as int].servers[si as int],
                    q,
                )),
            } by {
                if k == 0 {
                    if !gm {
                        assert(listed.len() > 0);
                        let si = listed[0];
                        assert(server_listed(g.servers[si as int], q, gm));
                        assert(lower_server_matches(g.servers[si as int], q));
                        assert(server_matches(groups[gi].servers[si as int], q));
                    }
                } else {
                    assert(gr[k] == Row::Server(gi as usize, listed[k - 1]));
                }
            }
        }
        let all = rows_upto(lower_groups(groups), expanded, q, n);
        assert(all == prev + gr);
        assert forall|k: int| 0 <= k < all.len() implies match #[trigger] all[k] {
            Row::Group(gi) => gi < groups.len() && (group_matches(groups[gi as int], q)
                || exists|si: int|
                0 <= si < groups[gi as int].servers.len() && server_matches(
                    #[trigger] groups[gi as int].servers[si],
                    q,
                )),
            Row::Server(gi, si) => gi < groups.len() && si < groups[gi as int].servers.len() && (
            group_matches(groups[gi as int], q) || server_matches(
                groups[gi as int].servers[si as int],
                q,
            )),
        } by {
            if k < prev.len() {
                assert(all[k] == prev[k]);
            } else {
                assert(all[k] == gr[k - prev.len()]);
            }
        }
    }
}

proof fn lemma_listed_has(servers: Seq<LowerServerModel>, q: Seq<char>, gm: bool, n: nat, si: int)
    requires
        n <= servers.len(),
        servers.len() <= usize::MAX,
        0 <= si < n,
        server_listed(servers[si], q, gm),
    ensures
        listed_servers(servers, q, gm, n).contains(si as usize),
    decreases n,
{
    let cur = listed_servers(servers, q, gm, n);
    if si == n - 1 {
        assert(cur.last() == si as usize);
        assert(cur[cur.len() - 1] == si as usize);
    } else {
        lemma_listed_has(servers, q, gm, (n - 1) as nat, si);
        let prev = listed_servers(servers, q, gm, (n - 1) as nat);
        let k = choose|k: int| 0 <= k < prev.len() && prev[k] == si as usize;
        assert(cur[k] == prev[k]);
    }
}

/// Every row of the groups before the `n`-th shown under a non-empty query
/// is still there once more groups are added.
proof fn lemma_rows_upto_has(groups: Seq<GroupModel>, expanded: Seq<bool>, q: Seq<char>, n: nat, m: nat, r: Row)
    requires
        m <= n <= groups.len(),
        rows_upto(lower_groups(groups), expanded, q, m).contains(r),
    ensures
        rows_upto(lower_groups(groups), expanded, q, n).contains(r),
    decreases n - m,
{
    if m < n {
        let lg = lower_groups(groups);
        lemma_rows_upto_has(groups, expanded, q, (n - 1) as nat, m, r);
        let prev = rows_upto(lg, expanded, q, (n - 1) as nat);
        let all = rows_upto(lg, expanded, q, n);
        assert(all == prev + group_rows(n - 1, lg[n - 1], expanded, q));
        let k = choose|k: int| 0 <= k < prev.len() && prev[k] == r;
        assert(all[k] == prev[k]);
    }
}

/// The rows group `gi` contributes under a non-empty query hold its row
/// when it matches, and the row of each of its servers that matches or
/// whose group matches.
proof fn lemma_group_rows_has(groups: Seq<GroupModel>, expanded: Seq<bool>, q: Seq<char>, gi: int)
    requires
        q.len() > 0,
        0 <= gi < groups.len(),
        sizes_fit(groups),
    ensures
        group_matches(groups[gi], q) ==> group_rows(gi, lower_groups(groups)[gi], expanded, q).contains(
            Row::Group(gi as usize),
        ),
        forall|si: int|
            0 <= si < groups[gi].servers.len() && (group_matches(groups[gi], q) || server_matches(
                groups[gi].servers[si],
                q,
            )) ==> #[trigger] group_rows(gi, lower_groups(groups)[gi], expanded, q).contains(
                Row::Server(gi as usize, si as usize),
            ),
{
    let g = lower_groups(groups)[gi];
    assert(g == lower_group(groups[gi]));
    lemma_lower_matches(groups[gi], q);
    let gm = lower_group_matches(g, q);
    let listed = listed_servers(g.servers, q, gm, g.servers.len());
    let gr = group_rows(gi, g, expanded, q);
    if gm {
        assert(gr[0] == Row::Group(gi as usize));
    }
    assert forall|si: int|
        0 <= si < groups[gi].servers.len() && (group_matches(groups[gi], q) || server_matches(
            groups[gi].servers[si],
            q,
        )) implies #[trigger] gr.contains(Row::Server(gi as usize, si as usize)) by {
        assert(lower_server_matches(g.servers[si], q) == server_matches(groups[gi].servers[si], q));
        assert(server_listed(g.servers[si], q, gm));
        lemma_listed_has(g.servers, q, gm, g.servers.len(), si);
        let k = choose|k: int| 0 <= k < listed.len() && listed[k] == si as usize;
        assert(listed.len() > 0);
        assert(gr == seq![Row::Group(gi as usize)] + server_rows(gi, listed));
        assert(gr[k + 1] == Row::Server(gi as usize, si as usize));
    }
}

/// With a non-empty query (lowercased), no matching server is hidden: a
/// server that matches by name, host or tag, or whose group's name
/// matches, is shown, whatever is folded.
pub proof fn law_filter_shows_matching_server(
    groups: Seq<GroupModel>,
    expanded: Seq<bool>,
    query: Seq<char>,
    gi: int,
    si: int,
)
    requires
        lowercase(query).len() > 0,
        sizes_fit(groups),
        0 <= gi < groups.len(),
        0 <= si < groups[gi].servers.len(),
        group_matches(groups[gi], lowercase(query)) || server_matches(groups[gi].servers[si], lowercase(query)),
    ensures
        visible(groups, expanded, query).contains(Row::Server(gi as usize, si as usize)),
{
    let q = lowercase(query);
    let lg = lower_groups(groups);
    lemma_group_rows_has(groups, expanded, q, gi);
    let gr = group_rows(gi, lg[gi], expanded, q);
    let prev = rows_upto(lg, expanded, q, gi as nat);
    let r = Row::Server(gi as usize, si as usize);
    assert(gr.contains(r));
    let k = choose|k: int| 0 <= k < gr.len() && gr[k] == r;
    assert(rows_upto(lg, expanded, q, (gi + 1) as nat) == prev + gr);
    assert((prev + gr)[prev.len() + k] == r);
    lemma_rows_upto_has(groups, expanded, q, groups.len(), (gi + 1) as nat, r);
}

/// With a non-empty query (lowercased), a group whose name matches is
/// shown.
pub proof fn law_filter_shows_matching_group(groups: Seq<GroupModel>, expanded: Seq<bool>, query: Seq<char>, gi: int)
    requires
        lowercase(query).len() > 0,
        sizes_fit(groups),
        0 <= gi < groups.len(),
        group_matches(groups[gi], lowercase(query)),
    ensures
        visible(groups, expanded, query).contains(Row::Group(gi as usize)),
{
    let q = lowercase(query);
    let lg = lower_groups(groups);
    lemma_group_rows_has(groups, expanded, q, gi);
    let gr = group_rows(gi, lg[gi], expanded, q);
    let prev = rows_upto(lg, expanded, q, gi as nat);
    let r = Row::Group(gi as usize);
    let k = choose|k: int| 0 <= k < gr.len() && gr[k] == r;
    assert(rows_upto(lg, expanded, q, (gi + 1) as nat) == prev + gr);
    assert((prev + gr)[prev.len() + k] == r);
    lemma_rows_upto_has(groups, expanded, q, groups.len(), (gi + 1) as nat, r);
}

/// The group a row belongs to.
spec fn row_group(r: Row) -> int {
    match r {
        Row::Group(g) => g as int,
        Row::Server(g, _) => g as int,
    }
}

proof fn lemma_rows_same_flags(lg: Seq<LowerGroupModel>, e1: Seq<bool>, e2: Seq<bool>, q: Seq<char>, m: nat)
    requires
        forall|j: int| 0 <= j < m ==> is_expanded(e1, j) == is_expanded(e2, j),
    ensures
        rows_upto(lg, e1, q, m) == rows_upto(lg, e2, q, m),
    decreases m,
{
    if m > 0 {
        lemma_rows_same_flags(lg, e1, e2, q, (m - 1) as nat);
        assert(is_expanded(e1, m - 1) == is_expanded(e2, m - 1));
        assert(group_rows(m - 1, lg[m - 1], e1, q) == group_rows(m - 1, lg[m - 1], e2, q));
    }
}

proof fn lemma_rows_prefix(lg: Seq<LowerGroupModel>, e: Seq<bool>, q: Seq<char>, m: nat, n: nat)
    requires
        m <= n,
    ensures
        rows_upto(lg, e, q, m).len() <= rows_upto(lg, e, q, n).len(),
        forall|k: int| 0 <= k < rows_upto(lg, e, q, m).len() ==> #[trigger] rows_upto(lg, e, q, n)[k]
            == rows_upto(lg, e, q, m)[k],
    decreases n - m,
{
    if m < n {
        lemma_rows_prefix(lg, e, q, m, (n - 1) as nat);
        let prev = rows_upto(lg, e, q, (n - 1) as nat);
        assert(rows_upto(lg, e, q, n) == prev + group_rows(n - 1, lg[n - 1], e, q));
        assert forall|k: int| 0 <= k < rows_upto(lg, e, q, m).len() implies #[trigger] rows_upto(lg, e, q, n)[k]
            == rows_upto(lg, e, q, m)[k] by {
            assert(rows_upto(lg, e, q, n)[k] == prev[k]);
        }
    }
}

/// Row `k` lies in the part of the rows its group contributes, and a group
/// row is the first of that part.
proof fn lemma_row_section(lg: Seq<LowerGroupModel>, e: Seq<bool>, q: Seq<char>, n: nat, k: int)
    requires
        0 <= k < rows_upto(lg, e, q, n).len(),
        n <= usize::MAX,
    ensures
        0 <= row_group(rows_upto(lg, e, q, n)[k]) < n,
        rows_upto(lg, e, q, row_group(rows_upto(lg, e, q, n)[k]) as nat).len() <= k,
        k < rows_upto(lg, e, q, (row_group(rows_upto(lg, e, q, n)[k]) + 1) as nat).len(),
        rows_upto(lg, e, q, n)[k] is Group ==> k == rows_upto(
            lg,
            e,
            q,
            row_group(rows_upto(lg, e, q, n)[k]) as nat,
        ).len(),
    decreases n,
{
    let prev = rows_upto(lg, e, q, (n - 1) as nat);
    let gr = group_rows(n - 1, lg[n - 1], e, q);
    assert(rows_upto(lg, e, q, n) == prev + gr);
    if k < prev.len() {
        lemma_row_section(lg, e, q, (n - 1) as nat, k);
        assert(rows_upto(lg, e, q, n)[k] == prev[k]);
    } else {
        let i = k - prev.len();
        assert(rows_upto(lg, e, q, n)[k] == gr[i]);
        let g = lg[n - 1];
        let listed = listed_servers(g.servers, q, lower_group_matches(g, q), g.servers.len());
        if i == 0 {
            assert(gr[0] == Row::Group((n - 1) as usize));
        } else {
            assert(gr[i] == Row::Server((n - 1) as usize, listed[i - 1]));
        }
    }
}

/// Folding or unfolding a group twice gives back the fold flags and the
/// selection it started from.
pub proof fn law_toggle_twice(groups: Seq<GroupModel>, expanded: Seq<bool>, query: Seq<char>, selected: usize)
    requires
        sizes_fit(groups),
        selected < visible(groups, expanded, query).len(),
        visible(groups, expanded, query)[selected as int] matches Row::Group(gi) && gi < expanded.len(),
    ensures
        ({
            let t = toggled(groups, expanded, query, selected);
            toggled(groups, t.0, query, t.1) == (expanded, selected)
        }),
{
    let lg = lower_groups(groups);
    let q = lowercase(query);
    let n = groups.len();
    let rows = visible(groups, expanded, query);
    let gi = row_group(rows[selected as int]);
    lemma_row_section(lg, expanded, q, n, selected as int);
    let e2 = expanded.update(gi, !expanded[gi]);
    assert forall|j: int| 0 <= j < gi implies is_expanded(expanded, j) == is_expanded(e2, j) by {}
    lemma_rows_same_flags(lg, expanded, e2, q, gi as nat);
    let p = rows_upto(lg, expanded, q, gi as nat);
    assert(rows_upto(lg, expanded, q, (gi + 1) as nat) == p + group_rows(gi, lg[gi], expanded, q));
    assert(rows_upto(lg, e2, q, (gi + 1) as nat) == p + group_rows(gi, lg[gi], e2, q));
    assert(group_rows(gi, lg[gi], expanded, q).len() > 0);
    assert(group_rows(gi, lg[gi], e2, q)[0] == Row::Group(gi as usize));
    assert(rows_upto(lg, e2, q, (gi + 1) as nat)[selected as int] == Row::Group(gi as usize));
    lemma_rows_prefix(lg, e2, q, (gi + 1) as nat, n);
    let rows2 = visible(groups, e2, query);
    assert(rows2[selected as int] == Row::Group(gi as usize));
    assert(toggled(groups, expanded, query, selected) == (e2, selected));
    assert(e2.update(gi, !e2[gi]) =~= expanded);
}


/// In the host list (no dialog open) each key does what the key table of
/// the README says: the arrows move and fold, Enter and Right connect or
/// fold, typing filters, Backspace deletes from the filter, Esc clears the
/// filter and then quits, Control with a, e, d and r opens the add, edit,
/// delete and rename dialogs, and Control-C quits.
pub proof fn law_host_list_keys(a: App, c: char, ctrl: bool)
    requires
        a.rename_group is None,
        a.delete_confirm is None,
        a.wizard is None,
    ensures
        command_for(a, KeyPress { key: Key::Up, ctrl }) == Command::MoveUp,
        command_for(a, KeyPress { key: Key::Down, ctrl }) == Command::MoveDown,
        command_for(a, KeyPress { key: Key::Enter, ctrl }) == Command::Enter,
        command_for(a, KeyPress { key: Key::Right, ctrl }) == Command::Enter,
        command_for(a, KeyPress { key: Key::Left, ctrl }) == Command::Toggle,
        command_for(a, KeyPress { key: Key::Backspace, ctrl }) == Command::QueryBackspace,
        a.query@.len() == 0 ==> command_for(a, KeyPress { key: Key::Esc, ctrl }) == Command::Quit,
        a.query@.len() > 0 ==> command_for(a, KeyPress { key: Key::Esc, ctrl }) == Command::ClearQuery,
        command_for(a, KeyPress { key: Key::Char(c), ctrl: false }) == Command::QueryInput(c),
        command_for(a, KeyPress { key: Key::Char('a'), ctrl: true }) == Command::StartWizard,
        command_for(a, KeyPress { key: Key::Char('e'), ctrl: true }) == Command::StartWizardEdit,
        command_for(a, KeyPress { key: Key::Char('d'), ctrl: true }) == Command::StartDelete,
        command_for(a, KeyPress { key: Key::Char('r'), ctrl: true }) == Command::StartRename,
        command_for(a, KeyPress { key: Key::Char('c'), ctrl: true }) == Command::Quit,
        (c != 'a' && c != 'e' && c != 'd' && c != 'r' && c != 'c') ==> command_for(
            a,
            KeyPress { key: Key::Char(c), ctrl: true },
        ) == Command::Ignore,
{
}

/// Inside the add/edit wizard the arrows choose and go back, Enter goes on,
/// Esc cancels, Backspace deletes and characters are typed.
pub proof fn law_wizard_keys(a: App, c: char, ctrl: bool)
    requires
        a.rename_group is None,
        a.delete_confirm is None,
        a.wizard is Some,
        !(ctrl && c == 'c'),
    ensures
        command_for(a, KeyPress { key: Key::Up, ctrl }) == Command::WizardUp,
        command_for(a, KeyPress { key: Key::Down, ctrl }) == Command::WizardDown,
        command_for(a, KeyPress { key: Key::Left, ctrl }) == Command::WizardBack,
        command_for(a, KeyPress { key: Key::Enter, ctrl }) == Command::WizardAdvance,
        command_for(a, KeyPress { key: Key::Esc, ctrl }) == Command::CancelWizard,
        command_for(a, KeyPress { key: Key::Backspace, ctrl }) == Command::WizardBackspace,
        command_for(a, KeyPress { key: Key::Char(c), ctrl }) == Command::WizardInput(c),
{
}

/// In the delete confirmation `y`, `Y` and Enter delete, `n`, `N` and Esc
/// cancel, and other keys do nothing; in the rename dialog Enter saves, Esc
/// cancels, Backspace deletes and plain characters are typed.
pub proof fn law_dialog_keys(a: App, c: char, ctrl: bool)
    requires
        !(ctrl && c == 'c'),
    ensures
        a.rename_group is None && a.delete_confirm is Some ==> {
            &&& command_for(a, KeyPress { key: Key::Char('y'), ctrl }) == Command::CommitDelete
            &&& command_for(a, KeyPress { key: Key::Char('Y'), ctrl }) == Command::CommitDelete
            &&& command_for(a, KeyPress { key: Key::Enter, ctrl }) == Command::CommitDelete
            &&& command_for(a, KeyPress { key: Key::Char('n'), ctrl }) == Command::CancelDelete
            &&& command_for(a, KeyPress { key: Key::Char('N'), ctrl }) == Command::CancelDelete
            &&& command_for(a, KeyPress { key: Key::Esc, ctrl }) == Command::CancelDelete
            &&& (c != 'y' && c != 'Y' && c != 'n' && c != 'N') ==> command_for(
                a,
                KeyPress { key: Key::Char(c), ctrl },
            ) == Command::Ignore
        },
        a.rename_group is Some ==> {
            &&& command_for(a, KeyPress { key: Key::Enter, ctrl }) == Command::CommitRename
            &&& command_for(a, KeyPress { key: Key::Esc, ctrl }) == Command::CancelRename
            &&& command_for(a, KeyPress { key: Key::Backspace, ctrl }) == Command::RenameBackspace
            &&& command_for(a, KeyPress { key: Key::Char(c), ctrl: false }) == Command::RenameInput(c)
        },
{
}

/// Each known cause of an ssh failure is recognised from its phrase in the
/// lowercased stderr, the earlier causes taking precedence: an unknown
/// host, a refused connection, no route, an unreachable network, a timeout,
/// a changed or unverified host key, too many or denied authentications, a
/// failed handshake, a bad option, an inaccessible identity file and an
/// unprotected key file. Without any of them the explanation quotes ssh's
/// last line, or says that there was none.
pub proof fn law_failure_causes(stderr: Seq<char>, lower: Seq<char>)
    ensures
        ({
            let has = |p: Seq<char>| has_substring(lower, p);
            let dns = has("could not resolve hostname"@) || has("name or service not known"@) || has(
                "nodename nor servname"@,
            );
            let refused = has("connection refused"@);
            let no_route = has("no route to host"@);
            let unreachable = has("network is unreachable"@);
            let timeout = has("operation timed out"@) || has("connection timed out"@);
            let changed = has("remote host identification has changed"@);
            let unverified = has("host key verification failed"@);
            let too_many = has("too many authentication failures"@);
            let denied = has("permission denied"@);
            let handshake = has("kex_exchange_identification"@);
            let bad_option = has("bad configuration option"@) || has("bad option"@);
            let identity = has("identity file"@) && has("not accessible"@);
            let unprotected = has("unprotected private key file"@);
            let text = failure_text(stderr, lower);
            &&& dns ==> text == "DNS lookup failed — host name could not be resolved."@
            &&& !dns && refused ==> text == "Connection refused — nothing is listening on the SSH port."@
            &&& !dns && !refused && no_route ==> text == "No route to host."@
            &&& !dns && !refused && !no_route && unreachable ==> text == "Network is unreachable."@
            &&& !dns && !refused && !no_route && !unreachable && timeout ==> text
                == "Connection timed out — host did not respond."@
            &&& !dns && !refused && !no_route && !unreachable && !timeout && changed ==> text
                == "Host key changed — server presented a different key than known_hosts.\nIf this was expected (e.g. server rebuild): ssh-keygen -R <host>"@
            &&& !dns && !refused && !no_route && !unreachable && !timeout && !changed && unverified ==> text
                == "Host key verification failed — known_hosts entry doesn't match.\nRemove the stale entry: ssh-keygen -R <host>"@
            &&& !dns && !refused && !no_route && !unreachable && !timeout && !changed && !unverified
                && too_many ==> text == "Too many authentication failures — server rejected all offered keys."@
            &&& !dns && !refused && !no_route && !unreachable && !timeout && !changed && !unverified
                && !too_many && denied ==> text == "Authentication denied."@
            &&& !dns && !refused && !no_route && !unreachable && !timeout && !changed && !unverified
                && !too_many && !denied && handshake ==> text
                == "SSH handshake failed — peer did not respond as an SSH server."@
            &&& !dns && !refused && !no_route && !unreachable && !timeout && !changed && !unverified
                && !too_many && !denied && !handshake && bad_option ==> text
                == "Invalid SSH option in the `flags` field."@
            &&& !dns && !refused && !no_route && !unreachable && !timeout && !changed && !unverified
                && !too_many && !denied && !handshake && !bad_option && identity ==> text
                == "Identity file not accessible — key path is wrong or unreadable."@
            &&& !dns && !refused && !no_route && !unreachable && !timeout && !changed && !unverified
                && !too_many && !denied && !handshake && !bad_option && !identity && unprotected ==> text
                == "Private key file has too-permissive permissions.\nFix with: chmod 600 <key-file>"@
            &&& !dns && !refused && !no_route && !unreachable && !timeout && !changed && !unverified
                && !too_many && !denied && !handshake && !bad_option && !identity && !unprotected ==> (
            text.len() >= 14 && text.take(14) == "ssh exited 255"@)
        }),
{
    reveal_strlit("ssh exited 255");
    reveal_strlit("ssh exited 255. Last message:\n  ");
    reveal_strlit("ssh exited 255 with no diagnostic output.");
    let a = "ssh exited 255. Last message:\n  "@;
    let b = "ssh exited 255 with no diagnostic output."@;
    assert(a.take(14) =~= "ssh exited 255"@);
    assert(b.take(14) =~= "ssh exited 255"@);
    assert forall|l: Seq<char>| #[trigger] (a + l).take(14) == a.take(14) by {
        assert((a + l).take(14) =~= a.take(14));
    }
}

/// Whether the lowercased stderr names one of the failure causes that
/// `law_failure_causes` lists.
pub open spec fn names_a_cause(lower: Seq<char>) -> bool {
    let has = |p: Seq<char>| has_substring(lower, p);
    ||| has("could not resolve hostname"@)
    ||| has("name or service not known"@)
    ||| has("nodename nor servname"@)
    ||| has("connection refused"@)
    ||| has("no route to host"@)
    ||| has("network is unreachable"@)
    ||| has("operation timed out"@)
    ||| has("connection timed out"@)
    ||| has("remote host identification has changed"@)
    ||| has("host key verification failed"@)
    ||| has("too many authentication failures"@)
    ||| has("permission denied"@)
    ||| has("kex_exchange_identification"@)
    ||| has("bad configuration option"@)
    ||| has("bad option"@)
    ||| has("identity file"@) && has("not accessible"@)
    ||| has("unprotected private key file"@)
}

/// When no known cause is named, the explanation quotes ssh's last line
/// that is not blank, trimmed: here stderr ends with the non-blank line
/// `last` (after a line break, or as its only line).
pub proof fn law_failure_quotes_last_line(before: Option<Seq<char>>, last: Seq<char>, lower: Seq<char>)
    requires
        !names_a_cause(lower),
        trimmed(last).len() > 0,
        forall|j: int| 0 <= j < last.len() ==> last[j] != '\n',
    ensures
        ({
            let stderr = match before {
                Some(x) => x.push('\n') + last,
                None => last,
            };
            failure_text(stderr, lower) == "ssh exited 255. Last message:\n  "@ + trimmed(last)
        }),
{
    let stderr = match before {
        Some(x) => x.push('\n') + last,
        None => last,
    };
    match before {
        Some(x) => {
            lemma_split_on_after_sep(x, last, '\n');
        },
        None => {
            lemma_split_scan_plain(Seq::empty(), last, '\n');
            assert(Seq::<char>::empty() + last =~= last);
            assert(split_on(last, '\n') =~= seq![last]);
        },
    }
    let lines = split_on(stderr, '\n');
    assert(lines.last() == last);
    assert(last_nonblank(lines) == Some(last));
}

/// A DNS label is 1 to 63 characters, each an ASCII letter of either case,
/// a digit or a hyphen, and neither starts nor ends with a hyphen.
pub proof fn law_label_chars(l: Seq<char>)
    ensures
        label_ok(l) <==> {
            &&& 0 < l.len() <= 63
            &&& l[0] != '-'
            &&& l[l.len() - 1] != '-'
            &&& forall|j: int|
                0 <= j < l.len() ==> ('0' <= #[trigger] l[j] <= '9') || ('a' <= l[j] <= 'z') || ('A' <= l[j]
                    <= 'Z') || l[j] == '-'
        },
{
}

proof fn lemma_split_joined_dots(labels: Seq<Seq<char>>)
    requires
        labels.len() > 0,
        forall|k: int, j: int| 0 <= k < labels.len() && 0 <= j < labels[k].len() ==> #[trigger] labels[k][j] != '.',
    ensures
        split_on(joined(labels, "."@), '.') == labels,
    decreases labels.len(),
{
    reveal_strlit(".");
    if labels.len() == 1 {
        let t = labels[0];
        assert forall|j: int| 0 <= j < t.len() implies t[j] != '.' by {
            assert(labels[0][j] != '.');
        }
        lemma_split_scan_plain(Seq::empty(), t, '.');
        assert(Seq::<char>::empty() + t =~= t);
        assert(split_on(t, '.') =~= labels);
    } else {
        let d = labels.drop_last();
        assert forall|k: int, j: int| 0 <= k < d.len() && 0 <= j < d[k].len() implies #[trigger] d[k][j]
            != '.' by {
            assert(d[k] == labels[k]);
        }
        lemma_split_joined_dots(d);
        let x = joined(d, "."@);
        let last = labels.last();
        assert forall|j: int| 0 <= j < last.len() implies last[j] != '.' by {
            assert(labels[labels.len() - 1][j] != '.');
        }
        assert(joined(labels, "."@) == x + "."@ + last);
        assert(x + "."@ + last =~= x.push('.') + last);
        lemma_split_on_after_sep(x, last, '.');
        assert(d.push(last) =~= labels);
    }
}

/// Valid DNS labels joined by dots make a host name the wizard accepts,
/// with or without one final dot, while it is at most 253 characters.
pub proof fn law_dotted_labels_accepted(labels: Seq<Seq<char>>)
    requires
        labels.len() > 0,
        forall|k: int| 0 <= k < labels.len() ==> label_ok(#[trigger] labels[k]),
    ensures
        joined(labels, "."@).len() <= 253 ==> hostname_ok(joined(labels, "."@)),
        joined(labels, "."@).len() + 1 <= 253 ==> hostname_ok(joined(labels, "."@).push('.')),
{
    assert forall|k: int, j: int| 0 <= k < labels.len() && 0 <= j < labels[k].len() implies #[trigger] labels[k][j]
        != '.' by {
        assert(label_ok(labels[k]));
    }
    lemma_split_joined_dots(labels);
    let h = joined(labels, "."@);
    assert forall|k: int| 0 <= k < labels.len() implies #[trigger] labels[k].len() > 0 by {
        assert(label_ok(labels[k]));
    }
    lemma_joined_ends(labels, "."@);
    assert(label_ok(labels[labels.len() - 1]));
    assert(h.last() != '.');
    assert(without_final_dot(h) == h);
    assert(h.push('.').drop_last() =~= h);
    assert(without_final_dot(h.push('.')) == h);
}

/// The wizard refuses a host with `@` (asking for the user to be set in the
/// next step), then one with white space or a control character; it
/// accepts any other host that reads as an IP address or is a host name,
/// and refuses the rest as neither.
pub proof fn law_host_answers(s: Seq<char>, candidate_is_ip: bool)
    ensures
        (exists|j: int| 0 <= j < s.len() && s[j] == '@') ==> host_problem(s, candidate_is_ip) == Some(
            "don't include user@ — set user in the next step"@,
        ),
        (forall|j: int| 0 <= j < s.len() ==> s[j] != '@') && (exists|j: int|
            0 <= j < s.len() && (white_space(s[j]) || (s[j] as u32) <= 0x1f || (0x7f <= (s[j] as u32) && (s[j] as u32)
                <= 0x9f))) ==> host_problem(s, candidate_is_ip) == Some("host cannot contain whitespace"@),
        (forall|j: int| 0 <= j < s.len() ==> s[j] != '@' && !white_space(s[j]) && !control_char(s[j])) ==> (
        host_problem(s, candidate_is_ip) is None <==> (candidate_is_ip || hostname_ok(s))),
        host_problem(s, candidate_is_ip) is Some && !(exists|j: int| 0 <= j < s.len() && s[j] == '@') && !(exists|j: int|
            0 <= j < s.len() && (white_space(s[j]) || control_char(s[j]))) ==> host_problem(s, candidate_is_ip)
            == Some("host must be a hostname or IP address"@),
{
    if exists|j: int| 0 <= j < s.len() && s[j] == '@' {
        let j = choose|j: int| 0 <= j < s.len() && s[j] == '@';
        assert(s[j] == '@');
    }
    if exists|j: int|
        0 <= j < s.len() && (white_space(s[j]) || (s[j] as u32) <= 0x1f || (0x7f <= (s[j] as u32) && (s[j] as u32)
            <= 0x9f)) {
        let j = choose|j: int|
            0 <= j < s.len() && (white_space(s[j]) || (s[j] as u32) <= 0x1f || (0x7f <= (s[j] as u32) && (s[j]
                as u32) <= 0x9f));
        assert(white_space(s[j]) || control_char(s[j]));
    }
}

/// Cleaning a text keeps its length and every character but the control
/// characters (Unicode `Cc`: U+0000 to U+001F and U+007F to U+009F) other
/// than tab, each of which becomes `?`.
pub proof fn law_sanitize_changes_only_controls(s: Seq<char>)
    ensures
        sanitized(s).len() == s.len(),
        forall|j: int|
            0 <= j < s.len() ==> #[trigger] sanitized(s)[j] == if ((s[j] as u32) <= 0x1f || (0x7f <= (
            s[j] as u32) && (s[j] as u32) <= 0x9f)) && s[j] != '\t' {
                '?'
            } else {
                s[j]
            },
{
}

proof fn lemma_row_position_found(rows: Seq<Row>, r: Row)
    requires
        rows.contains(r),
    ensures
        0 <= row_position(rows, r) < rows.len(),
        rows[row_position(rows, r)] == r,
    decreases rows.len(),
{
    if rows[0] != r {
        let t = rows.drop_first();
        let k = choose|k: int| 0 <= k < rows.len() && rows[k] == r;
        assert(t[k - 1] == r);
        lemma_row_position_found(t, r);
        assert(rows[row_position(t, r) + 1] == t[row_position(t, r)]);
    }
}

proof fn lemma_first_named_in(groups: Seq<GroupModel>, name: Seq<char>)
    ensures
        first_named(groups, name) < groups.len(),
    decreases groups.len(),
{
    if groups.len() > 0 && groups[0].name != name {
        lemma_first_named_in(groups.drop_first(), name);
    }
}

proof fn lemma_unfiltered_has(groups: Seq<GroupModel>, expanded: Seq<bool>, n: nat, t: int, si: int)
    requires
        0 <= t < n <= groups.len(),
        sizes_fit(groups),
        is_expanded(expanded, t),
        0 <= si < groups[t].servers.len(),
    ensures
        unfiltered_rows(groups, expanded, n).contains(Row::Server(t as usize, si as usize)),
    decreases n,
{
    let prev = unfiltered_rows(groups, expanded, (n - 1) as nat);
    let r = Row::Server(t as usize, si as usize);
    if t == n - 1 {
        let part = seq![Row::Group(t as usize)] + server_rows(t, Seq::new(groups[t].servers.len(), |i: int| i as usize));
        assert(unfiltered_rows(groups, expanded, n) == prev + part);
        assert(part[1 + si] == r);
        assert((prev + part)[prev.len() + 1 + si] == r);
    } else {
        lemma_unfiltered_has(groups, expanded, (n - 1) as nat, t, si);
        let k = choose|k: int| 0 <= k < prev.len() && prev[k] == r;
        assert(unfiltered_rows(groups, expanded, n)[k] == prev[k]);
    }
}

/// After the wizard's save succeeds, the saved configuration is shown with
/// the query cleared, the group the server was saved to is unfolded and the
/// saved server's row is the selected one, whenever that group is still
/// there.
pub proof fn law_wizard_save_selects_server(a: App, b: App, p: PendingSave)
    requires
        p.reason is Wizard,
        finished(a, b, p, Ok::<(), String>(())),
        sizes_fit(p.config@.groups),
        first_named(p.config@.groups, p.reason->target_name@) >= 0,
        p.reason->new_si < p.config@.groups[first_named(p.config@.groups, p.reason->target_name@)].servers.len(),
        visible(p.config@.groups, b.expanded@, b.query@).len() <= usize::MAX,
    ensures
        ({
            let ng = p.config@.groups;
            let t = first_named(ng, p.reason->target_name@);
            &&& b.query@.len() == 0
            &&& b.config@ == p.config@
            &&& b.expanded@[t] == true
            &&& b.selected < visible(ng, b.expanded@, b.query@).len()
            &&& visible(ng, b.expanded@, b.query@)[b.selected as int] == Row::Server(t as usize, p.reason->new_si)
        }),
{
    let ng = p.config@.groups;
    let t = first_named(ng, p.reason->target_name@);
    lemma_first_named_in(ng, p.reason->target_name@);
    let ex = reconciled(a.config@.groups, a.expanded@, ng);
    assert(b.expanded@ == ex.update(t, true));
    assert(b.expanded@[t] == true);
    law_empty_query_lists_everything(ng, b.expanded@, b.query@);
    lemma_unfiltered_has(ng, b.expanded@, ng.len(), t, p.reason->new_si as int);
    let rows = visible(ng, b.expanded@, b.query@);
    assert(p.reason->new_si as int as usize == p.reason->new_si);
    assert(rows.contains(Row::Server(t as usize, p.reason->new_si)));
    lemma_row_position_found(rows, Row::Server(t as usize, p.reason->new_si));
    assert(b.selected == selection_on(rows, Row::Server(t as usize, p.reason->new_si), a.selected));
}

/// Going back from the step that Enter led to returns to the step Enter
/// was pressed on, showing the answer that was stored there (the typed text,
/// trimmed); this holds for every step before the last whenever Enter
/// accepted the answer.
pub proof fn law_back_undoes_advance(w: WizardModel, groups_len: nat, host_is_ip: bool)
    requires
        w.step != WizardStep::Confirm,
        w.step == WizardStep::NewGroupName ==> w.group_idx is None,
        advanced(w, groups_len, host_is_ip).error is None,
    ensures
        ({
            let a = advanced(w, groups_len, host_is_ip);
            let b = moved_to(a, prev_step(a.step, a.group_idx));
            &&& b.step == w.step
            &&& (w.step != WizardStep::PickGroup && w.step != WizardStep::Key) ==> b.input == trimmed(
                w.input,
            )
        }),
{
}

/// Writing a server's port into the wizard and reading it back gives the
/// same port: editing a server and saving it unchanged keeps its port.
pub proof fn law_edit_keeps_port(s: ServerModel)
    ensures
        draft_port(draft_of(s)) == Some(s.port),
{
    if let Some(p) = s.port {
        lemma_decimal_parses_back(p);
        let d = decimal(p as nat);
        assert(d.len() > 0) by {
            reveal_with_fuel(decimal, 2);
        }
    }
}

proof fn lemma_split_scan_plain(a: Seq<char>, b: Seq<char>, sep: char)
    requires
        forall|j: int| 0 <= j < b.len() ==> b[j] != sep,
    ensures
        split_scan(a + b, sep) == (split_scan(a, sep).0, split_scan(a, sep).1 + b),
    decreases b.len(),
{
    if b.len() == 0 {
        assert(a + b =~= a);
        assert(split_scan(a, sep).1 + b =~= split_scan(a, sep).1);
    } else {
        let c = b.drop_last();
        lemma_split_scan_plain(a, c, sep);
        assert((a + b).drop_last() =~= a + c);
        assert((a + b).last() == b.last());
        assert(split_scan(a, sep).1 + c.push(b.last()) =~= split_scan(a, sep).1 + b);
        assert(c.push(b.last()) =~= b);
        assert((split_scan(a, sep).1 + c).push(b.last()) =~= split_scan(a, sep).1 + b);
    }
}

proof fn lemma_split_on_after_sep(x: Seq<char>, b: Seq<char>, sep: char)
    requires
        forall|j: int| 0 <= j < b.len() ==> b[j] != sep,
    ensures
        split_on(x.push(sep) + b, sep) == split_on(x, sep).push(b),
{
    let y = x.push(sep);
    assert(y.drop_last() =~= x);
    assert(split_scan(y, sep) == (split_scan(x, sep).0.push(split_scan(x, sep).1), Seq::<char>::empty()));
    lemma_split_scan_plain(y, b, sep);
    assert(Seq::<char>::empty() + b =~= b);
}

proof fn lemma_split_joined_tags(tags: Seq<Seq<char>>)
    requires
        tags.len() > 0,
        forall|k: int, j: int| 0 <= k < tags.len() && 0 <= j < tags[k].len() ==> #[trigger] tags[k][j] != ',',
    ensures
        split_on(joined(tags, ", "@), ',') == Seq::new(
            tags.len(),
            |k: int|
                if k == 0 {
                    tags[0]
                } else {
                    " "@ + tags[k]
                },
        ),
    decreases tags.len(),
{
    reveal_strlit(", ");
    reveal_strlit(" ");
    if tags.len() == 1 {
        let t = tags[0];
        assert forall|j: int| 0 <= j < t.len() implies t[j] != ',' by {
            assert(tags[0][j] != ',');
        }
        lemma_split_scan_plain(Seq::empty(), t, ',');
        assert(Seq::<char>::empty() + t =~= t);
        assert(Seq::<char>::empty() + t =~= t);
    } else {
        let d = tags.drop_last();
        assert forall|k: int, j: int| 0 <= k < d.len() && 0 <= j < d[k].len() implies #[trigger] d[k][j]
            != ',' by {
            assert(d[k] == tags[k]);
        }
        lemma_split_joined_tags(d);
        let x = joined(d, ", "@);
        let last = tags.last();
        let b = " "@ + last;
        assert forall|j: int| 0 <= j < b.len() implies b[j] != ',' by {
            if j > 0 {
                assert(b[j] == last[j - 1]);
                assert(tags[tags.len() - 1][j - 1] != ',');
            }
        }
        assert(joined(tags, ", "@) == x + ", "@ + last);
        assert(x + ", "@ + last =~= x.push(',') + b);
        lemma_split_on_after_sep(x, b, ',');
        assert(split_on(joined(tags, ", "@), ',') =~= Seq::new(
            tags.len(),
            |k: int|
                if k == 0 {
                    tags[0]
                } else {
                    " "@ + tags[k]
                },
        ));
    }
}

proof fn lemma_trimmed_after_space(t: Seq<char>)
    requires
        t.len() > 0,
        is_trimmed(t),
    ensures
        trimmed(" "@ + t) == t,
{
    reveal_strlit(" ");
    let s = " "@ + t;
    assert(s.drop_first() =~= t);
    assert(white_space(s[0]));
    assert(trim_start(s) == trim_start(t));
    assert(trim_start(t) == t);
    assert(trim_end(t) == t);
}

/// Reading back the tags of a server from the text the edit wizard shows
/// them as (joined by `, `) gives the same tags, when each is trimmed,
/// non-empty and free of commas.
proof fn lemma_tags_round_trip(tags: Seq<Seq<char>>)
    requires
        forall|k: int| 0 <= k < tags.len() ==> #[trigger] tags[k].len() > 0 && is_trimmed(tags[k]),
        forall|k: int, j: int| 0 <= k < tags.len() && 0 <= j < tags[k].len() ==> #[trigger] tags[k][j] != ',',
    ensures
        tag_list(joined(tags, ", "@)) == tags,
{
    let keep = |t: Seq<char>| t.len() > 0;
    if tags.len() == 0 {
        assert(split_scan(Seq::<char>::empty(), ',') == (Seq::<Seq<char>>::empty(), Seq::<char>::empty()));
        let m = split_on(Seq::<char>::empty(), ',').map_values(|p: Seq<char>| trimmed(p));
        assert(m =~= seq![Seq::<char>::empty()]);
        reveal_with_fuel(Seq::<_>::filter, 2);
        assert(m.drop_last() =~= Seq::<Seq<char>>::empty());
        assert(m.filter(keep) =~= Seq::<Seq<char>>::empty());
    } else {
        lemma_split_joined_tags(tags);
        let m = split_on(joined(tags, ", "@), ',').map_values(|p: Seq<char>| trimmed(p));
        assert forall|k: int| 0 <= k < tags.len() implies m[k] == tags[k] by {
            if k == 0 {
                lemma_trimmed_fixed(tags[0]);
            } else {
                lemma_trimmed_after_space(tags[k]);
            }
        }
        assert(m =~= tags);
        lemma_filter_all(tags, keep);
    }
}

/// Editing a server and saving it without changing an answer gives back the
/// same server: the draft the edit wizard starts from turns into the
/// server again, port included, whenever the server's optional texts are
/// set only when not blank and are trimmed, and its tags are trimmed,
/// non-empty and free of commas (as the wizard writes them).
pub proof fn law_edit_keeps_server(s: ServerModel)
    requires
        s.user matches Some(u) ==> u.len() > 0 && is_trimmed(u),
        s.key matches Some(k) ==> k.len() > 0 && is_trimmed(k),
        s.flags matches Some(f) ==> f.len() > 0 && is_trimmed(f),
        s.description matches Some(d) ==> d.len() > 0 && is_trimmed(d),
        forall|k: int| 0 <= k < s.tags.len() ==> #[trigger] s.tags[k].len() > 0 && is_trimmed(s.tags[k]),
        forall|k: int, j: int| 0 <= k < s.tags.len() && 0 <= j < s.tags[k].len() ==> #[trigger] s.tags[k][j] != ',',
    ensures
        draft_port(draft_of(s)) == Some(s.port),
        drafted_server(draft_of(s), s.port) == s,
{
    law_edit_keeps_port(s);
    lemma_tags_round_trip(s.tags);
    lemma_nonblank_of(s.user);
    lemma_nonblank_of(s.key);
    lemma_nonblank_of(s.flags);
    lemma_nonblank_of(s.description);
}

proof fn lemma_nonblank_of(o: Option<Seq<char>>)
    requires
        o matches Some(t) ==> t.len() > 0 && is_trimmed(t),
    ensures
        nonblank(text_or_empty(o)) == o,
{
    if let Some(t) = o {
        lemma_trimmed_fixed(t);
    } else {
        assert(trimmed(Seq::<char>::empty()) == Seq::<char>::empty());
    }
}

/// The wizard after Enter is pressed `k` times, the answers left as they
/// are shown.
pub open spec fn advanced_times(w: WizardModel, groups_len: nat, host_is_ip: bool, k: nat) -> WizardModel
    decreases k,
{
    if k == 0 {
        w
    } else {
        advanced(advanced_times(w, groups_len, host_is_ip, (k - 1) as nat), groups_len, host_is_ip)
    }
}

proof fn lemma_key_position_found(keys: Seq<KeyModel>, path: Seq<char>, i: int)
    requires
        0 <= i < keys.len(),
        keys[i].0 == path,
    ensures
        0 <= key_position(keys, path) < keys.len(),
        keys[key_position(keys, path)].0 == path,
    decreases keys.len(),
{
    if keys[0].0 != path {
        let t = keys.drop_first();
        assert(t[i - 1] == keys[i]);
        lemma_key_position_found(t, path, i - 1);
        assert(keys[key_position(t, path) + 1] == t[key_position(t, path)]);
    }
}

proof fn lemma_joined_ends(parts: Seq<Seq<char>>, sep: Seq<char>)
    requires
        parts.len() > 0,
        forall|k: int| 0 <= k < parts.len() ==> #[trigger] parts[k].len() > 0,
    ensures
        joined(parts, sep).len() > 0,
        joined(parts, sep)[0] == parts[0][0],
        joined(parts, sep).last() == parts.last().last(),
    decreases parts.len(),
{
    if parts.len() > 1 {
        let d = parts.drop_last();
        assert forall|k: int| 0 <= k < d.len() implies #[trigger] d[k].len() > 0 by {
            assert(d[k] == parts[k]);
        }
        lemma_joined_ends(d, sep);
        let j = joined(d, sep) + sep + parts.last();
        assert(j[0] == joined(d, sep)[0]);
        assert(parts.last().len() > 0);
        assert(j.last() == parts.last().last());
    }
}

proof fn lemma_tags_text_trimmed(tags: Seq<Seq<char>>)
    requires
        forall|k: int| 0 <= k < tags.len() ==> #[trigger] tags[k].len() > 0 && is_trimmed(tags[k]),
    ensures
        is_trimmed(joined(tags, ", "@)),
{
    if tags.len() > 0 {
        lemma_joined_ends(tags, ", "@);
        assert(is_trimmed(tags[0]));
        assert(is_trimmed(tags[tags.len() - 1]));
    }
}

proof fn lemma_decimal_trimmed(n: nat)
    ensures
        decimal(n).len() > 0,
        is_trimmed(decimal(n)),
{
    lemma_decimal_digits(n);
    let d = decimal(n);
    assert('0' <= d[0] && d[0] <= '9');
    assert('0' <= d[d.len() - 1] && d[d.len() - 1] <= '9');
}

proof fn lemma_text_or_empty_trimmed(o: Option<Seq<char>>)
    requires
        o matches Some(t) ==> t.len() > 0 && is_trimmed(t),
    ensures
        trimmed(text_or_empty(o)) == text_or_empty(o),
{
    lemma_trimmed_fixed(text_or_empty(o));
}

/// Server `si` of group `gi` exists and is written as the wizard writes
/// servers: its name trimmed and not empty, its host one the host step
/// accepts (`host_is_ip` says whether it reads as an IP address), its port
/// not 0, its optional texts set only when not blank and trimmed, its tags
/// trimmed, non-empty and free of commas; and no group is empty.
pub open spec fn as_the_wizard_writes(groups: Seq<GroupModel>, gi: usize, si: usize, host_is_ip: bool) -> bool {
    &&& gi < groups.len()
    &&& si < groups[gi as int].servers.len()
    &&& forall|i: int| 0 <= i < groups.len() ==> #[trigger] groups[i].servers.len() > 0
    &&& {
        let s = groups[gi as int].servers[si as int];
        &&& s.name.len() > 0 && is_trimmed(s.name)
        &&& s.host.len() > 0 && host_problem(s.host, host_is_ip) is None
        &&& s.port != Some(0u16)
        &&& (s.user matches Some(u) ==> u.len() > 0 && is_trimmed(u))
        &&& (s.key matches Some(k) ==> k.len() > 0 && is_trimmed(k))
        &&& (s.flags matches Some(f) ==> f.len() > 0 && is_trimmed(f))
        &&& (s.description matches Some(d) ==> d.len() > 0 && is_trimmed(d))
        &&& forall|k: int| 0 <= k < s.tags.len() ==> #[trigger] s.tags[k].len() > 0 && is_trimmed(s.tags[k])
        &&& forall|k: int, j: int|
            0 <= k < s.tags.len() && 0 <= j < s.tags[k].len() ==> #[trigger] s.tags[k][j] != ','
    }
}

/// Editing a server and pressing Enter through every step without changing
/// an answer ends on the confirm step with the server's own answers, and
/// saving then writes back the configuration it started from, as an
/// update of that server. This holds whenever the server's texts are as
/// the wizard writes them: its name trimmed and not empty, its host one the
/// host step accepts (`host_is_ip` says whether it reads as an IP
/// address), its port not 0, its optional texts set only when not blank
/// and trimmed, its tags trimmed, non-empty and free of commas, and no
/// group is empty.
#[verifier::spinoff_prover]
#[verifier::rlimit(40)]
pub proof fn law_edit_round_trip(
    groups: Seq<GroupModel>,
    gi: usize,
    si: usize,
    discovered: Seq<KeyModel>,
    existing_info: Option<(Seq<char>, Seq<char>)>,
    host_is_ip: bool,
)
    requires
        discovered.len() <= usize::MAX,
        as_the_wizard_writes(groups, gi, si, host_is_ip),
    ensures
        ({
            let s = groups[gi as int].servers[si as int];
            let w = advanced_times(edit_start(gi, si, s, discovered, existing_info), groups.len(), host_is_ip, 9);
            &&& w.step == WizardStep::Confirm
            &&& w.mode == WizardMode::Edit { gi, si }
            &&& w.group_idx == Some(gi)
            &&& w.draft == draft_of(s)
            &&& draft_port(w.draft) == Some(s.port)
            &&& wizard_verb(w) == "updated"@
            &&& pruned(placed(groups, w, drafted_server(w.draft, s.port)).0) == groups
        }),
{
    let s = groups[gi as int].servers[si as int];
    let n = groups.len();
    let d = draft_of(s);
    let w0 = edit_start(gi, si, s, discovered, existing_info);
    reveal_with_fuel(advanced_times, 10);
    // The answers are shown trimmed already.
    lemma_trimmed_fixed(s.name);
    lemma_trimmed_fixed(s.host);
    lemma_text_or_empty_trimmed(s.user);
    lemma_text_or_empty_trimmed(s.key);
    lemma_text_or_empty_trimmed(s.flags);
    lemma_text_or_empty_trimmed(s.description);
    lemma_tags_text_trimmed(s.tags);
    lemma_trimmed_fixed(joined(s.tags, ", "@));
    if let Some(p) = s.port {
        lemma_decimal_trimmed(p as nat);
        lemma_trimmed_fixed(decimal(p as nat));
        lemma_decimal_parses_back(p);
    } else {
        lemma_trimmed_fixed(Seq::<char>::empty());
    }
    // The key step offers the server's own key and highlights it.
    let existing = text_or_empty(s.key);
    let keys = key_choices(existing, discovered, existing_info);
    assert(trimmed(existing) == existing);
    if existing.len() == 0 {
        assert(keys[0].0 == existing);
        lemma_key_position_found(keys, existing, 0);
    } else if exists|i: int| 0 <= i < discovered.len() && #[trigger] discovered[i].0 == existing {
        let i = choose|i: int| 0 <= i < discovered.len() && #[trigger] discovered[i].0 == existing;
        assert(keys[1 + i].0 == existing);
        lemma_key_position_found(keys, existing, 1 + i);
    } else {
        assert(keys[1].0 == existing);
        lemma_key_position_found(keys, existing, 1);
    }
    let a1 = advanced(w0, n, host_is_ip);
    assert(a1.step == WizardStep::ServerName && a1.group_idx == Some(gi) && a1.input == d.name && a1.draft == d);
    let a2 = advanced(a1, n, host_is_ip);
    assert(a2.step == WizardStep::Host && a2.input == d.host && a2.draft == d);
    let a3 = advanced(a2, n, host_is_ip);
    assert(a3.step == WizardStep::User && a3.input == d.user && a3.draft == d);
    let a4 = advanced(a3, n, host_is_ip);
    assert(a4.step == WizardStep::Key && a4.draft == d && a4.keys == keys);
    assert(a4.key_pick == key_index(keys, existing));
    assert(key_position(keys, existing) <= usize::MAX);
    assert(a4.key_pick as int == key_position(keys, existing));
    assert(a4.keys[a4.key_pick as int].0 == d.key);
    let a5 = advanced(a4, n, host_is_ip);
    assert(a5.step == WizardStep::Port && a5.input == d.port && a5.draft == d);
    let a6 = advanced(a5, n, host_is_ip);
    assert(a6.step == WizardStep::Flags && a6.input == d.flags && a6.draft == d);
    let a7 = advanced(a6, n, host_is_ip);
    assert(a7.step == WizardStep::Tags && a7.input == d.tags && a7.draft == d);
    let a8 = advanced(a7, n, host_is_ip);
    assert(a8.step == WizardStep::Description && a8.input == d.description && a8.draft == d);
    let a9 = advanced(a8, n, host_is_ip);
    assert(a9.step == WizardStep::Confirm && a9.draft == d && a9.group_idx == Some(gi));
    assert(advanced_times(w0, n, host_is_ip, 9) == a9);
    law_edit_keeps_server(s);
    let g = groups[gi as int];
    assert(g.servers.update(si as int, s) =~= g.servers);
    assert(with_servers(g, g.servers) == g);
    assert(groups.update(gi as int, g) =~= groups);
    lemma_filter_all(groups, |g: GroupModel| g.servers.len() > 0);
}

/// Editing a server and pressing Enter through every step, then saving
/// successfully, leaves the configuration as it was and reports the server
/// as updated. `a` is the browser when Enter is pressed on the confirm step
/// (its wizard as nine Enters from `start_wizard_edit` leave it), `b` the
/// browser after that Enter, which asked to save `res`, and `c` the browser
/// after the save succeeded.
pub proof fn law_edit_save_keeps_config(
    a: App,
    b: App,
    c: App,
    res: Option<PendingSave>,
    gi: usize,
    si: usize,
    discovered: Seq<KeyModel>,
    existing_info: Option<(Seq<char>, Seq<char>)>,
    host_is_ip: bool,
)
    requires
        discovered.len() <= usize::MAX,
        as_the_wizard_writes(a.config@.groups, gi, si, host_is_ip),
        committed(
            a,
            b,
            advanced_times(
                edit_start(gi, si, a.config@.groups[gi as int].servers[si as int], discovered, existing_info),
                a.config@.groups.len(),
                host_is_ip,
                9,
            ),
            res,
        ),
        res is Some ==> finished(b, c, res->0, Ok::<(), String>(())),
    ensures
        res is Some,
        res->0.config@ == a.config@,
        c.config@ == a.config@,
        c.wizard is None,
        c.query@.len() == 0,
        flash_model(c.flash) == Some(
            (FlashKind::Success, "✓ "@ + "updated"@ + " "@ + a.config@.groups[gi as int].servers[si as int].name),
        ),
{
    let groups = a.config@.groups;
    law_edit_round_trip(groups, gi, si, discovered, existing_info, host_is_ip);
    let s = groups[gi as int].servers[si as int];
    let w = advanced_times(edit_start(gi, si, s, discovered, existing_info), groups.len(), host_is_ip, 9);
    assert(draft_port(w.draft) == Some(s.port));
    let p = res->0;
    assert(p.config@ =~= a.config@);
}

/// After empty groups are dropped, every group has a server; dropping them
/// again changes nothing.
pub proof fn law_pruned_groups_have_servers(groups: Seq<GroupModel>)
    ensures
        forall|i: int| 0 <= i < pruned(groups).len() ==> #[trigger] pruned(groups)[i].servers.len() > 0,
        pruned(pruned(groups)) == pruned(groups),
{
    let p = |g: GroupModel| g.servers.len() > 0;
    groups.filter_lemma(p);
    pruned(groups).filter_lemma(p);
    lemma_filter_all(pruned(groups), p);
}

proof fn lemma_filter_all<A>(s: Seq<A>, p: spec_fn(A) -> bool)
    requires
        forall|i: int| 0 <= i < s.len() ==> p(#[trigger] s[i]),
    ensures
        s.filter(p) == s,
    decreases s.len(),
{
    reveal_with_fuel(Seq::<_>::filter, 1);
    if s.len() > 0 {
        lemma_filter_all(s.drop_last(), p);
        assert(s.drop_last().push(s.last()) =~= s);
    }
}

proof fn lemma_total_update(groups: Seq<GroupModel>, i: int, g: GroupModel)
    requires
        0 <= i < groups.len(),
    ensures
        total_servers(groups.update(i, g)) == total_servers(groups) - groups[i].servers.len()
            + g.servers.len(),
    decreases groups.len(),
{
    let u = groups.update(i, g);
    if i == groups.len() - 1 {
        assert(u.drop_last() =~= groups.drop_last());
    } else {
        lemma_total_update(groups.drop_last(), i, g);
        assert(u.drop_last() =~= groups.drop_last().update(i, g));
    }
}

proof fn lemma_total_push(groups: Seq<GroupModel>, g: GroupModel)
    ensures
        total_servers(groups.push(g)) == total_servers(groups) + g.servers.len(),
{
    assert(groups.push(g).drop_last() =~= groups);
}

proof fn lemma_total_pruned(groups: Seq<GroupModel>)
    ensures
        total_servers(pruned(groups)) == total_servers(groups),
    decreases groups.len(),
{
    reveal_with_fuel(Seq::<_>::filter, 1);
    if groups.len() > 0 {
        lemma_total_pruned(groups.drop_last());
        if groups.last().servers.len() > 0 {
            lemma_total_push(pruned(groups.drop_last()), groups.last());
        }
    }
}

/// Deleting a server removes exactly one server from the configuration:
/// the host count drops by one, whatever groups are dropped for being
/// left empty.
pub proof fn law_delete_removes_one(groups: Seq<GroupModel>, gi: int, si: int)
    requires
        0 <= gi < groups.len(),
        0 <= si < groups[gi].servers.len(),
    ensures
        total_servers(after_delete(groups, gi, si)) == total_servers(groups) - 1,
{
    let g = with_servers(groups[gi], groups[gi].servers.remove(si));
    lemma_total_update(groups, gi, g);
    lemma_total_pruned(groups.update(gi, g));
}

/// Saving the wizard adds one server to the configuration when it adds a
/// host, and keeps the host count when it edits one (in place or moved to
/// another group, a new group included).
pub proof fn law_wizard_host_count(groups: Seq<GroupModel>, w: WizardModel, server: ServerModel)
    requires
        wizard_fits(w, groups),
    ensures
        total_servers(pruned(placed(groups, w, server).0)) == total_servers(groups) + if w.mode
            is New {
            1int
        } else {
            0int
        },
{
    let (gs, t) = with_target(groups, w);
    assert(total_servers(gs) == total_servers(groups)) by {
        if w.group_idx is None {
            lemma_total_push(groups, bare_group(w.new_group_name));
        }
    }
    let (pg, nsi) = placed(groups, w, server);
    match w.mode {
        WizardMode::New => {
            lemma_total_update(gs, t, with_servers(gs[t], gs[t].servers.push(server)));
        },
        WizardMode::Edit { gi, si } => {
            if t == gi {
                lemma_total_update(gs, t, with_servers(gs[t], gs[t].servers.update(si as int, server)));
            } else {
                let g1 = gs.update(gi as int, with_servers(gs[gi as int], gs[gi as int].servers.remove(si as int)));
                lemma_total_update(gs, gi as int, with_servers(gs[gi as int], gs[gi as int].servers.remove(si as int)));
                lemma_total_update(g1, t, with_servers(g1[t], g1[t].servers.push(server)));
            }
        },
    }
    lemma_total_pruned(pg);
}

/// The names of the groups are pairwise different.
pub open spec fn names_distinct(groups: Seq<GroupModel>) -> bool {
    forall|i: int, j: int|
        0 <= i < groups.len() && 0 <= j < groups.len() && i != j ==> #[trigger] groups[i].name
            != #[trigger] groups[j].name
}

/// When group names are different, each group's fold flag is carried over
/// to itself: a save that keeps the group list keeps every fold flag.
pub proof fn law_reconcile_keeps_flags(groups: Seq<GroupModel>, expanded: Seq<bool>)
    requires
        names_distinct(groups),
        expanded.len() == groups.len(),
    ensures
        reconciled(groups, expanded, groups) == expanded,
{
    assert forall|k: int| 0 <= k < groups.len() implies #[trigger] first_named(groups, groups[k].name) == k by {
        lemma_first_named_at(groups, k);
    }
    assert(reconciled(groups, expanded, groups) =~= expanded);
}

proof fn lemma_first_named_at(groups: Seq<GroupModel>, k: int)
    requires
        0 <= k < groups.len(),
        names_distinct(groups),
    ensures
        first_named(groups, groups[k].name) == k,
    decreases k,
{
    if k > 0 {
        let t = groups.drop_first();
        assert(names_distinct(t)) by {
            assert forall|i: int, j: int|
                0 <= i < t.len() && 0 <= j < t.len() && i != j implies #[trigger] t[i].name
                != #[trigger] t[j].name by {
                assert(t[i] == groups[i + 1]);
                assert(t[j] == groups[j + 1]);
            }
        }
        assert(t[k - 1] == groups[k]);
        lemma_first_named_at(t, k - 1);
        assert(groups[0].name != groups[k].name);
    }
}

/// A rename that the dialog accepts keeps group names pairwise different.
pub proof fn law_rename_keeps_names_distinct(groups: Seq<GroupModel>, gi: int, name: Seq<char>)
    requires
        names_distinct(groups),
        0 <= gi < groups.len(),
        !exists|i: int| 0 <= i < groups.len() && i != gi && #[trigger] groups[i].name == name,
    ensures
        names_distinct(groups.update(gi, with_name(groups[gi], name))),
{
}

/// Control-C quits whatever is open.
pub proof fn law_ctrl_c_quits(a: App)
    ensures
        command_for(a, KeyPress { key: Key::Char('c'), ctrl: true }) == Command::Quit,
{
}

/// A host that the wizard accepts holds no `@`, no white space and no
/// control character.
pub proof fn law_accepted_host_is_plain(s: Seq<char>, candidate_is_ip: bool)
    requires
        host_problem(s, candidate_is_ip) is None,
    ensures
        forall|j: int| 0 <= j < s.len() ==> #[trigger] s[j] != '@' && !white_space(s[j]) && !control_char(s[j]),
{
}

proof fn lemma_joined_append(a: Seq<Seq<char>>, b: Seq<Seq<char>>, sep: Seq<char>)
    requires
        a.len() > 0,
    ensures
        joined(a + b, sep) == if b.len() == 0 {
            joined(a, sep)
        } else {
            joined(a, sep) + sep + joined(b, sep)
        },
    decreases b.len(),
{
    if b.len() == 0 {
        assert(a + b =~= a);
    } else if b.len() == 1 {
        assert((a + b).drop_last() =~= a);
        assert((a + b).last() == b[0]);
    } else {
        lemma_joined_append(a, b.drop_last(), sep);
        assert((a + b).drop_last() =~= a + b.drop_last());
        assert((a + b).last() == b.last());
        assert(joined(b, sep) == joined(b.drop_last(), sep) + sep + b.last());
        assert(joined(a, sep) + sep + joined(b.drop_last(), sep) + sep + b.last() =~= joined(a, sep)
            + sep + (joined(b.drop_last(), sep) + sep + b.last()));
    }
}

/// The ssh command line that runs with the given arguments, as one line.
pub open spec fn command_line(args: Seq<Seq<char>>) -> Seq<char> {
    "ssh "@ + joined(args, " "@)
}

proof fn lemma_joined_pair(a: Seq<char>, b: Seq<char>, sep: Seq<char>)
    ensures
        joined(seq![a, b], sep) == a + sep + b,
{
    let s = seq![a, b];
    assert(s.drop_last() =~= seq![a]);
    assert(s.last() == b);
    assert(joined(seq![a], sep) == a);
    assert(joined(s, sep) == joined(s.drop_last(), sep) + sep + s.last());
}

proof fn lemma_option_texts()
    ensures
        " -p "@ == " "@ + "-p"@ + " "@,
        " -i "@ == " "@ + "-i"@ + " "@,
{
    reveal_strlit(" ");
    reveal_strlit(" -p ");
    reveal_strlit("-p");
    reveal_strlit(" -i ");
    reveal_strlit("-i");
    assert(" -p "@ =~= " "@ + "-p"@ + " "@);
    assert(" -i "@ =~= " "@ + "-i"@ + " "@);
}

/// The text a group of arguments adds to the command line, after the
/// arguments before it.
proof fn lemma_joined_step(prefix: Seq<Seq<char>>, more: Seq<Seq<char>>, sep: Seq<char>, text: Seq<char>)
    requires
        prefix.len() > 0,
        more.len() == 0 ==> text.len() == 0,
        more.len() > 0 ==> text == sep + joined(more, sep),
    ensures
        joined(prefix + more, sep) == joined(prefix, sep) + text,
{
    lemma_joined_append(prefix, more, sep);
    if more.len() == 0 {
        assert(joined(prefix, sep) + text =~= joined(prefix, sep));
    } else {
        assert(joined(prefix, sep) + sep + joined(more, sep) =~= joined(prefix, sep) + (sep + joined(
            more,
            sep,
        )));
    }
}

/// The arguments `-p PORT` when the port is not 22.
spec fn port_args(port: u16) -> Seq<Seq<char>> {
    if port != DEFAULT_PORT {
        seq!["-p"@, decimal(port as nat)]
    } else {
        Seq::empty()
    }
}

/// The text ` -p PORT` when the port is not 22.
spec fn port_text(port: u16) -> Seq<char> {
    if port != DEFAULT_PORT {
        " -p "@ + decimal(port as nat)
    } else {
        Seq::empty()
    }
}

/// The arguments `-i KEY` when a key is set.
spec fn key_args(key: Option<Seq<char>>) -> Seq<Seq<char>> {
    match key {
        Some(k) => seq!["-i"@, k],
        None => Seq::empty(),
    }
}

/// The text ` -i KEY` when a key is set.
spec fn key_text(key: Option<Seq<char>>) -> Seq<char> {
    match key {
        Some(k) => " -i "@ + k,
        None => Seq::empty(),
    }
}

/// The words of the flags, when set.
spec fn flag_args(flags: Option<Seq<char>>) -> Seq<Seq<char>> {
    match flags {
        Some(f) => words(f),
        None => Seq::empty(),
    }
}

/// The flags after a space, when set and not empty.
spec fn flag_text(flags: Option<Seq<char>>) -> Seq<char> {
    match flags {
        Some(f) => if f.len() > 0 {
            " "@ + f
        } else {
            Seq::empty()
        },
        None => Seq::empty(),
    }
}

/// `[user@]host`.
spec fn target(user: Option<Seq<char>>, host: Seq<char>) -> Seq<char> {
    match user {
        Some(u) => u + "@"@ + host,
        None => host,
    }
}

proof fn lemma_argv_parts(group: GroupModel, server: ServerModel, defaults: DefaultsModel, home: Option<Seq<char>>)
    requires
        first_set(server.key, group.key, defaults.key) matches Some(k) ==> expanded(k, home) == k,
    ensures
        ssh_argv(group, server, defaults, home) == seq![
            target(first_set(server.user, group.user, defaults.user), server.host),
        ] + port_args(port_of(server, group, defaults)) + key_args(first_set(server.key, group.key, defaults.key))
            + flag_args(server.flags),
{
}

proof fn lemma_preview_parts(group: GroupModel, server: ServerModel, defaults: DefaultsModel)
    ensures
        preview(group, server, defaults) == "ssh "@ + (target(
            first_set(server.user, group.user, defaults.user),
            server.host,
        ) + port_text(port_of(server, group, defaults)) + key_text(
            first_set(server.key, group.key, defaults.key),
        ) + flag_text(server.flags)),
{
    let user = first_set(server.user, group.user, defaults.user);
    let u_text = match user {
        Some(u) => u + "@"@,
        None => Seq::<char>::empty(),
    };
    assert(target(user, server.host) =~= u_text + server.host);
    assert(preview(group, server, defaults) =~= "ssh "@ + (target(user, server.host) + port_text(
        port_of(server, group, defaults),
    ) + key_text(first_set(server.key, group.key, defaults.key)) + flag_text(server.flags)));
}

proof fn lemma_port_part(prefix: Seq<Seq<char>>, port: u16)
    requires
        prefix.len() > 0,
    ensures
        joined(prefix + port_args(port), " "@) == joined(prefix, " "@) + port_text(port),
{
    lemma_option_texts();
    if port != DEFAULT_PORT {
        lemma_joined_pair("-p"@, decimal(port as nat), " "@);
        assert(" "@ + joined(port_args(port), " "@) =~= port_text(port));
    }
    lemma_joined_step(prefix, port_args(port), " "@, port_text(port));
}

proof fn lemma_key_part(prefix: Seq<Seq<char>>, key: Option<Seq<char>>)
    requires
        prefix.len() > 0,
    ensures
        joined(prefix + key_args(key), " "@) == joined(prefix, " "@) + key_text(key),
{
    lemma_option_texts();
    if let Some(k) = key {
        lemma_joined_pair("-i"@, k, " "@);
        assert(" "@ + joined(key_args(key), " "@) =~= key_text(key));
    }
    lemma_joined_step(prefix, key_args(key), " "@, key_text(key));
}

proof fn lemma_flag_part(prefix: Seq<Seq<char>>, flags: Option<Seq<char>>)
    requires
        prefix.len() > 0,
        flags matches Some(f) ==> f == joined(words(f), " "@),
    ensures
        joined(prefix + flag_args(flags), " "@) == joined(prefix, " "@) + flag_text(flags),
{
    if let Some(f) = flags {
        if f.len() == 0 && words(f).len() > 0 {
            lemma_words_are_words(f);
            lemma_joined_nonempty(words(f), " "@);
        }
    }
    lemma_joined_step(prefix, flag_args(flags), " "@, flag_text(flags));
}

/// The command shown in the details pane is the command that runs: the
/// preview is `ssh` followed by the arguments ssh is given, separated by
/// spaces, whenever the flags are already written as single-space
/// separated words and the key path is passed as written (it does not
/// start with `~/`, or no home directory is known).
pub proof fn law_preview_is_command(
    group: GroupModel,
    server: ServerModel,
    defaults: DefaultsModel,
    home: Option<Seq<char>>,
)
    requires
        server.flags matches Some(f) ==> f == joined(words(f), " "@),
        first_set(server.key, group.key, defaults.key) matches Some(k) ==> expanded(k, home) == k,
    ensures
        preview(group, server, defaults) == command_line(ssh_argv(group, server, defaults, home)),
{
    let t = target(first_set(server.user, group.user, defaults.user), server.host);
    let port = port_of(server, group, defaults);
    let key = first_set(server.key, group.key, defaults.key);
    lemma_argv_parts(group, server, defaults, home);
    lemma_preview_parts(group, server, defaults);
    assert(joined(seq![t], " "@) == t);
    lemma_port_part(seq![t], port);
    lemma_key_part(seq![t] + port_args(port), key);
    lemma_flag_part(seq![t] + port_args(port) + key_args(key), server.flags);
}

proof fn lemma_joined_nonempty(parts: Seq<Seq<char>>, sep: Seq<char>)
    requires
        parts.len() > 0,
        parts.last().len() > 0,
    ensures
        joined(parts, sep).len() > 0,
{
}

} // verus!
