//! What the screen shows, decided apart from drawing it: step names and
//! progress of the wizard, key hints, placeholder texts, the summary before
//! saving, and the placement of dialogs.
use vstd::prelude::*;

use crate::app::{is_expanded, App, DraftModel, Wizard, WizardStep};
use crate::config::{
    first_set, group_models, port_of, total_servers, Defaults, DefaultsModel, Group, GroupModel, Server, ServerModel,
};
use crate::text::{decimal, decimal_string, lemma_map_push, opt_text};

verus! {

/// The name of a wizard step, shown in the wizard's title.
pub open spec fn step_name(step: WizardStep) -> Seq<char> {
    match step {
        WizardStep::PickGroup => "group"@,
        WizardStep::NewGroupName => "new group"@,
        WizardStep::ServerName => "name"@,
        WizardStep::Host => "host"@,
        WizardStep::User => "user"@,
        WizardStep::Key => "key"@,
        WizardStep::Port => "port"@,
        WizardStep::Flags => "flags"@,
        WizardStep::Tags => "tags"@,
        WizardStep::Description => "description"@,
        WizardStep::Confirm => "confirm"@,
    }
}

/// The name of the wizard's current step.
pub fn step_label(w: &Wizard) -> (res: &'static str)
    ensures
        res@ == step_name(w.step),
{
    match w.step {
        WizardStep::PickGroup => "group",
        WizardStep::NewGroupName => "new group",
        WizardStep::ServerName => "name",
        WizardStep::Host => "host",
        WizardStep::User => "user",
        WizardStep::Key => "key",
        WizardStep::Port => "port",
        WizardStep::Flags => "flags",
        WizardStep::Tags => "tags",
        WizardStep::Description => "description",
        WizardStep::Confirm => "confirm",
    }
}

/// The position of a step among the wizard's steps, and their number:
/// eleven steps when a new group is being made (after the group step),
/// else ten, the new-group step left out.
pub open spec fn progress(step: WizardStep, new_group: bool) -> (usize, usize) {
    if new_group && step != WizardStep::PickGroup {
        (
            match step {
                WizardStep::NewGroupName => 2,
                WizardStep::ServerName => 3,
                WizardStep::Host => 4,
                WizardStep::User => 5,
                WizardStep::Key => 6,
                WizardStep::Port => 7,
                WizardStep::Flags => 8,
                WizardStep::Tags => 9,
                WizardStep::Description => 10,
                WizardStep::Confirm => 11,
                _ => 1,
            },
            11,
        )
    } else {
        (
            match step {
                WizardStep::PickGroup => 1,
                WizardStep::ServerName => 2,
                WizardStep::Host => 3,
                WizardStep::User => 4,
                WizardStep::Key => 5,
                WizardStep::Port => 6,
                WizardStep::Flags => 7,
                WizardStep::Tags => 8,
                WizardStep::Description => 9,
                WizardStep::Confirm => 10,
                _ => 1,
            },
            10,
        )
    }
}

/// How far the wizard is: its step's position and the number of steps.
pub fn step_progress(w: &Wizard) -> (res: (usize, usize))
    ensures
        res == progress(w.step, w.group_idx is None),
{
    if w.group_idx.is_none() && w.step != WizardStep::PickGroup {
        let i: usize = match w.step {
            WizardStep::NewGroupName => 2,
            WizardStep::ServerName => 3,
            WizardStep::Host => 4,
            WizardStep::User => 5,
            WizardStep::Key => 6,
            WizardStep::Port => 7,
            WizardStep::Flags => 8,
            WizardStep::Tags => 9,
            WizardStep::Description => 10,
            WizardStep::Confirm => 11,
            _ => 1,
        };
        (i, 11)
    } else {
        let i: usize = match w.step {
            WizardStep::PickGroup => 1,
            WizardStep::ServerName => 2,
            WizardStep::Host => 3,
            WizardStep::User => 4,
            WizardStep::Key => 5,
            WizardStep::Port => 6,
            WizardStep::Flags => 7,
            WizardStep::Tags => 8,
            WizardStep::Description => 9,
            WizardStep::Confirm => 10,
            _ => 1,
        };
        (i, 10)
    }
}

impl App {
    /// The number of servers in all groups, shown in the header (the
    /// largest `usize` should the count not fit).
    pub fn host_count(&self) -> (res: usize)
        ensures
            res == if total_servers(self.config@.groups) <= usize::MAX {
                total_servers(self.config@.groups)
            } else {
                usize::MAX as int
            },
    {
        let groups = &self.config.groups;
        let ghost gs = group_models(groups@);
        let n = groups.len();
        let mut total: usize = 0;
        let mut i: usize = 0;
        while i < n
            invariant
                i <= n,
                n == groups@.len(),
                gs == group_models(groups@),
                total == if total_servers(gs.take(i as int)) <= usize::MAX {
                    total_servers(gs.take(i as int))
                } else {
                    usize::MAX as int
                },
            decreases n - i,
        {
            assert(gs.take(i + 1).drop_last() =~= gs.take(i as int));
            assert(gs.take(i + 1).last() == gs[i as int]);
            assert(gs[i as int].servers.len() == groups@[i as int].servers@.len());
            total = total.saturating_add(groups[i].servers.len());
            i = i + 1;
        }
        assert(gs.take(n as int) =~= gs);
        total
    }

    /// Whether the tree shows group `gi` unfolded: it is, or a query is set.
    pub fn group_open(&self, gi: usize) -> (res: bool)
        ensures
            res == (is_expanded(self.expanded@, gi as int) || self.query@.len() > 0),
    {
        let folded = gi < self.expanded.len() && !self.expanded[gi];
        !folded || !self.query.as_str().is_empty()
    }
}

/// A rectangle of the terminal, in cells.
#[derive(Debug, Clone, Copy, PartialEq, Eq, Structural)]
pub struct Area {
    pub x: u16,
    pub y: u16,
    pub width: u16,
    pub height: u16,
}

/// `a - b`, or 0 when that is negative.
pub open spec fn sat_sub(a: u16, b: u16) -> u16 {
    if a >= b {
        (a - b) as u16
    } else {
        0
    }
}

/// The size of a dialog of the wanted size inside `area`: no larger than
/// the area less one cell on each side.
pub open spec fn fitted(want: u16, avail: u16) -> u16 {
    if want <= sat_sub(avail, 2) {
        want
    } else {
        sat_sub(avail, 2)
    }
}

/// The dialog fits inside `area` without its position overflowing.
pub open spec fn centering_fits(width: u16, height: u16, area: Area) -> bool {
    &&& area.x + sat_sub(area.width, fitted(width, area.width)) / 2 <= u16::MAX
    &&& area.y + sat_sub(area.height, fitted(height, area.height)) / 2 <= u16::MAX
}

/// A dialog of (at most) `width` by `height` cells centred in `area`.
pub fn centered_rect(width: u16, height: u16, area: Area) -> (res: Area)
    requires
        centering_fits(width, height, area),
    ensures
        res.width == fitted(width, area.width),
        res.height == fitted(height, area.height),
        res.x == area.x + sat_sub(area.width, res.width) / 2,
        res.y == area.y + sat_sub(area.height, res.height) / 2,
{
    let aw = area.width.saturating_sub(2);
    let ah = area.height.saturating_sub(2);
    let w = if width <= aw {
        width
    } else {
        aw
    };
    let h = if height <= ah {
        height
    } else {
        ah
    };
    Area {
        x: area.x + area.width.saturating_sub(w) / 2,
        y: area.y + area.height.saturating_sub(h) / 2,
        width: w,
        height: h,
    }
}

/// A key hint: the key and what it does.
pub type Hint = (String, String);

/// The characters of a list of hints.
pub open spec fn hint_texts(v: Seq<Hint>) -> Seq<(Seq<char>, Seq<char>)> {
    v.map_values(|h: Hint| (h.0@, h.1@))
}

fn hint(k: &str, v: &str) -> (res: Hint)
    ensures
        res.0@ == k@,
        res.1@ == v@,
{
    (String::from_str(k), String::from_str(v))
}

fn push_hint(hints: &mut Vec<Hint>, k: &str, v: &str)
    ensures
        hint_texts(final(hints)@) == hint_texts(old(hints)@).push((k@, v@)),
{
    let h = hint(k, v);
    let ghost before = hints@;
    hints.push(h);
    proof {
        lemma_map_push(before, h, |h: Hint| (h.0@, h.1@));
    }
}

/// The key hints of the footer: navigation, then editing or quitting
/// depending on the query, then adding, then editing and deleting when a
/// server is selected, then renaming when there are groups.
pub open spec fn footer_hint_texts(query_empty: bool, on_server: bool, has_groups: bool) -> Seq<
    (Seq<char>, Seq<char>),
> {
    seq![("↑↓"@, "nav"@), ("⏎"@, "connect / toggle"@), ("←"@, "fold"@)] + (if !query_empty {
        seq![("⌫"@, "delete"@), ("esc"@, "clear"@)]
    } else {
        seq![("type"@, "to filter"@), ("esc"@, "quit"@)]
    }) + seq![("ctrl-a"@, "add"@)] + (if on_server {
        seq![("ctrl-e"@, "edit"@), ("ctrl-d"@, "delete"@)]
    } else {
        Seq::empty()
    }) + (if has_groups {
        seq![("ctrl-r"@, "rename group"@)]
    } else {
        Seq::empty()
    })
}

/// The selection is on a server row.
pub open spec fn on_server(a: &App) -> bool {
    a.selected < a.rows().len() && a.rows()[a.selected as int] is Server
}

impl App {
    /// The key hints shown in the footer when no status message is shown.
    pub fn footer_hints(&self) -> (res: Vec<Hint>)
        ensures
            hint_texts(res@) == footer_hint_texts(
                self.query@.len() == 0,
                on_server(self),
                self.config@.groups.len() > 0,
            ),
    {
        let mut h: Vec<Hint> = Vec::new();
        push_hint(&mut h, "↑↓", "nav");
        push_hint(&mut h, "⏎", "connect / toggle");
        push_hint(&mut h, "←", "fold");
        let ghost a = hint_texts(h@);
        if !self.query.as_str().is_empty() {
            push_hint(&mut h, "⌫", "delete");
            push_hint(&mut h, "esc", "clear");
        } else {
            push_hint(&mut h, "type", "to filter");
            push_hint(&mut h, "esc", "quit");
        }
        let ghost b = hint_texts(h@);
        push_hint(&mut h, "ctrl-a", "add");
        let ghost c = hint_texts(h@);
        let server = self.current_server().is_some();
        if server {
            push_hint(&mut h, "ctrl-e", "edit");
            push_hint(&mut h, "ctrl-d", "delete");
        }
        let ghost d = hint_texts(h@);
        if self.config.groups.len() > 0 {
            push_hint(&mut h, "ctrl-r", "rename group");
        }
        proof {
            let q = self.query@.len() == 0;
            let srv = on_server(self);
            let g = self.config@.groups.len() > 0;
            let x = seq![("↑↓"@, "nav"@), ("⏎"@, "connect / toggle"@), ("←"@, "fold"@)];
            let y = if !q {
                seq![("⌫"@, "delete"@), ("esc"@, "clear"@)]
            } else {
                seq![("type"@, "to filter"@), ("esc"@, "quit"@)]
            };
            let z = seq![("ctrl-a"@, "add"@)];
            let u = if srv {
                seq![("ctrl-e"@, "edit"@), ("ctrl-d"@, "delete"@)]
            } else {
                Seq::<(Seq<char>, Seq<char>)>::empty()
            };
            let v = if g {
                seq![("ctrl-r"@, "rename group"@)]
            } else {
                Seq::<(Seq<char>, Seq<char>)>::empty()
            };
            assert(a =~= x);
            assert(b =~= x + y);
            assert(c =~= x + y + z);
            assert(d =~= x + y + z + u);
            assert(hint_texts(h@) =~= x + y + z + u + v);
        }
        h
    }

    /// The text of the details pane when no server is selected.
    pub fn details_placeholder(&self) -> (res: String)
        ensures
            res@ == (if self.config@.groups.len() == 0 {
                "no groups defined — edit your config.toml"@
            } else if self.rows().len() == 0 {
                "no matches"@
            } else {
                "select a host to see details"@
            }),
    {
        if self.config.groups.len() == 0 {
            String::from_str("no groups defined — edit your config.toml")
        } else if self.visible_rows().len() == 0 {
            String::from_str("no matches")
        } else {
            String::from_str("select a host to see details")
        }
    }
}

/// A setting as the details pane shows it: its value, or `(none)`.
pub open spec fn or_none(o: Option<Seq<char>>) -> Seq<char> {
    match o {
        Some(v) => v,
        None => "(none)"@,
    }
}

/// The labelled rows of the details pane for a server: its host, the user,
/// port and key it is reached with (unset ones shown as `(none)`), then its
/// flags when they are set and not empty.
pub open spec fn detail_rows_of(g: GroupModel, s: ServerModel, d: DefaultsModel) -> Seq<(Seq<char>, Seq<char>)> {
    seq![
        ("host"@, s.host),
        ("user"@, or_none(first_set(s.user, g.user, d.user))),
        ("port"@, decimal(port_of(s, g, d) as nat)),
        ("key"@, or_none(first_set(s.key, g.key, d.key))),
    ] + match s.flags {
        Some(f) => if f.len() > 0 {
            seq![("flags"@, f)]
        } else {
            Seq::empty()
        },
        None => Seq::empty(),
    }
}

fn push_row(rows: &mut Vec<Hint>, k: &str, v: String)
    ensures
        hint_texts(final(rows)@) == hint_texts(old(rows)@).push((k@, v@)),
{
    let h = (String::from_str(k), v);
    let ghost before = rows@;
    rows.push(h);
    proof {
        lemma_map_push(before, h, |h: Hint| (h.0@, h.1@));
    }
}

fn none_or(o: Option<String>) -> (res: String)
    ensures
        res@ == or_none(opt_text(o)),
{
    match o {
        Some(v) => v,
        None => String::from_str("(none)"),
    }
}

/// The labelled rows of the details pane for a server of `group`.
pub fn detail_rows(group: &Group, server: &Server, defaults: &Defaults) -> (res: Vec<Hint>)
    ensures
        hint_texts(res@) == detail_rows_of(group@, server@, defaults@),
{
    let mut rows: Vec<Hint> = Vec::new();
    push_row(&mut rows, "host", server.host.clone());
    push_row(&mut rows, "user", none_or(server.resolved_user(group, defaults)));
    push_row(&mut rows, "port", decimal_string(server.resolved_port(group, defaults)));
    push_row(&mut rows, "key", none_or(server.resolved_key(group, defaults)));
    let ghost base = hint_texts(rows@);
    match &server.flags {
        Some(f) => {
            if !f.as_str().is_empty() {
                push_row(&mut rows, "flags", f.clone());
            }
        },
        None => {},
    }
    assert(hint_texts(rows@) =~= detail_rows_of(group@, server@, defaults@));
    rows
}

/// The key hints at the bottom of the wizard for a step.
pub open spec fn wizard_hint_texts(step: WizardStep) -> Seq<(Seq<char>, Seq<char>)> {
    match step {
        WizardStep::PickGroup => seq![("↑↓"@, "choose"@), ("⏎"@, "select"@), ("esc"@, "cancel"@)],
        WizardStep::Key => seq![
            ("↑↓"@, "choose"@),
            ("⏎"@, "select"@),
            ("←"@, "back"@),
            ("esc"@, "cancel"@),
        ],
        WizardStep::Confirm => seq![("⏎"@, "save"@), ("↑"@, "back"@), ("esc"@, "cancel"@)],
        _ => seq![("⏎"@, "next"@), ("↑"@, "back"@), ("esc"@, "cancel"@)],
    }
}

/// The key hints at the bottom of the wizard.
pub fn wizard_hints(step: WizardStep) -> (res: Vec<Hint>)
    ensures
        hint_texts(res@) == wizard_hint_texts(step),
{
    let mut h: Vec<Hint> = Vec::new();
    match step {
        WizardStep::PickGroup => {
            push_hint(&mut h, "↑↓", "choose");
            push_hint(&mut h, "⏎", "select");
            push_hint(&mut h, "esc", "cancel");
        },
        WizardStep::Key => {
            push_hint(&mut h, "↑↓", "choose");
            push_hint(&mut h, "⏎", "select");
            push_hint(&mut h, "←", "back");
            push_hint(&mut h, "esc", "cancel");
        },
        WizardStep::Confirm => {
            push_hint(&mut h, "⏎", "save");
            push_hint(&mut h, "↑", "back");
            push_hint(&mut h, "esc", "cancel");
        },
        _ => {
            push_hint(&mut h, "⏎", "next");
            push_hint(&mut h, "↑", "back");
            push_hint(&mut h, "esc", "cancel");
        },
    }
    assert(hint_texts(h@) =~= wizard_hint_texts(step));
    h
}

/// The values the wizard shows before saving.
#[derive(Debug)]
pub struct ConfirmSummary {
    pub group: String,
    pub name: String,
    pub host: String,
    pub user: String,
    pub key: String,
    pub port: String,
    pub flags: String,
    pub tags: String,
    pub description: String,
}

/// An answer as shown before saving: the answer, or a dash when empty.
pub open spec fn or_dash(s: Seq<char>) -> Seq<char> {
    if s.len() == 0 {
        "—"@
    } else {
        s
    }
}

/// An answer that falls back to a default: the answer; when empty, the
/// default marked as such; without a default, a dash.
pub open spec fn or_default(s: Seq<char>, d: Option<Seq<char>>) -> Seq<char> {
    if s.len() == 0 {
        match d {
            Some(v) => v + "  (default)"@,
            None => "—"@,
        }
    } else {
        s
    }
}

/// The summary the wizard shows before saving, for groups `groups` and
/// defaults `defaults`.
pub open spec fn summary_of(
    group_idx: Option<usize>,
    new_group_name: Seq<char>,
    d: DraftModel,
    groups: Seq<GroupModel>,
    defaults: DefaultsModel,
) -> (Seq<char>, Seq<char>, Seq<char>, Seq<char>, Seq<char>, Seq<char>, Seq<char>, Seq<char>, Seq<char>) {
    (
        match group_idx {
            Some(i) => groups[i as int].name,
            None => new_group_name + "  (new)"@,
        },
        d.name,
        d.host,
        or_default(d.user, defaults.user),
        or_default(d.key, defaults.key),
        if d.port.len() == 0 {
            "22  (default)"@
        } else {
            d.port
        },
        or_dash(d.flags),
        or_dash(d.tags),
        or_dash(d.description),
    )
}

fn dash_or(s: &String) -> (res: String)
    ensures
        res@ == or_dash(s@),
{
    if s.as_str().is_empty() {
        String::from_str("—")
    } else {
        s.clone()
    }
}

fn default_or(s: &String, d: &Option<String>) -> (res: String)
    ensures
        res@ == or_default(s@, opt_text(*d)),
{
    if s.as_str().is_empty() {
        match d {
            Some(v) => {
                let mut out = v.clone();
                out.append("  (default)");
                out
            },
            None => String::from_str("—"),
        }
    } else {
        s.clone()
    }
}

impl App {
    /// The values the wizard `w` shows before saving: the target group (a
    /// new one marked as such), the answers, and, for answers left empty,
    /// the defaults or a dash.
    pub fn confirm_summary(&self, w: &Wizard) -> (res: ConfirmSummary)
        requires
            w.group_idx matches Some(i) ==> i < self.config@.groups.len(),
        ensures
            (res.group@, res.name@, res.host@, res.user@, res.key@, res.port@, res.flags@, res.tags@, res.description@)
                == summary_of(w.group_idx, w.new_group_name@, w.draft@, self.config@.groups, self.config@.defaults),
    {
        let group = match w.group_idx {
            Some(i) => self.config.groups[i].name.clone(),
            None => {
                let mut g = w.new_group_name.clone();
                g.append("  (new)");
                g
            },
        };
        let port = if w.draft.port.as_str().is_empty() {
            String::from_str("22  (default)")
        } else {
            w.draft.port.clone()
        };
        ConfirmSummary {
            group,
            name: w.draft.name.clone(),
            host: w.draft.host.clone(),
            user: default_or(&w.draft.user, &self.config.defaults.user),
            key: default_or(&w.draft.key, &self.config.defaults.key),
            port,
            flags: dash_or(&w.draft.flags),
            tags: dash_or(&w.draft.tags),
            description: dash_or(&w.draft.description),
        }
    }
}

} // verus!
