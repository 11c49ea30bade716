use shh::app::{App, WizardStep};
use shh::config::{Config, Defaults, Group, Server};
use shh::ui::{centered_rect, step_label, step_progress, wizard_hints, Area};

fn sample() -> Config {
    let s = Server {
        name: "web".into(),
        host: "h".into(),
        user: None,
        key: None,
        port: None,
        flags: None,
        tags: vec![],
        description: None,
    };
    Config {
        defaults: Defaults { user: Some("dani".into()), key: Some("~/.ssh/id".into()), port: None },
        groups: vec![Group { name: "G".into(), icon: None, user: None, key: None, port: None, servers: vec![s] }],
    }
}

#[test]
fn wizard_step_names_and_progress() {
    let mut app = App::new(sample());
    app.start_wizard(vec![]);
    assert_eq!(step_label(app.wizard.as_ref().unwrap()), "group");
    assert_eq!(step_progress(app.wizard.as_ref().unwrap()), (1, 10));
    app.wizard_pick_down();
    app.wizard_advance(false);
    assert_eq!(step_label(app.wizard.as_ref().unwrap()), "new group");
    assert_eq!(step_progress(app.wizard.as_ref().unwrap()), (2, 11));
    app.wizard_back();
    app.wizard_up();
    app.wizard_advance(false);
    assert_eq!(step_label(app.wizard.as_ref().unwrap()), "name");
    assert_eq!(step_progress(app.wizard.as_ref().unwrap()), (2, 10));
}

#[test]
fn dialogs_are_centered_and_fit() {
    let a = Area { x: 0, y: 0, width: 100, height: 40 };
    assert_eq!(centered_rect(70, 24, a), Area { x: 15, y: 8, width: 70, height: 24 });
    let small = Area { x: 2, y: 1, width: 30, height: 10 };
    assert_eq!(centered_rect(70, 24, small), Area { x: 3, y: 2, width: 28, height: 8 });
    let tiny = Area { x: 0, y: 0, width: 1, height: 0 };
    assert_eq!(centered_rect(5, 5, tiny), Area { x: 0, y: 0, width: 0, height: 0 });
}

#[test]
fn footer_hints_depend_on_state() {
    let mut app = App::new(sample());
    let keys = |app: &App| app.footer_hints().into_iter().map(|(k, _)| k).collect::<Vec<_>>();
    assert_eq!(keys(&app), vec!["↑↓", "⏎", "←", "type", "esc", "ctrl-a", "ctrl-r"]);
    app.selected = 1;
    app.query = "w".into();
    assert_eq!(keys(&app), vec!["↑↓", "⏎", "←", "⌫", "esc", "ctrl-a", "ctrl-e", "ctrl-d", "ctrl-r"]);
    let empty = App::new(Config::default());
    assert_eq!(keys(&empty), vec!["↑↓", "⏎", "←", "type", "esc", "ctrl-a"]);
    assert_eq!(empty.details_placeholder(), "no groups defined — edit your config.toml");
    app.query = "zzz".into();
    assert_eq!(app.details_placeholder(), "no matches");
    app.query = String::new();
    assert_eq!(app.details_placeholder(), "select a host to see details");
}

#[test]
fn wizard_hints_by_step() {
    let labels = |s| wizard_hints(s).into_iter().map(|(k, v)| format!("{} {}", k, v)).collect::<Vec<_>>();
    assert_eq!(labels(WizardStep::PickGroup), vec!["↑↓ choose", "⏎ select", "esc cancel"]);
    assert_eq!(labels(WizardStep::Key), vec!["↑↓ choose", "⏎ select", "← back", "esc cancel"]);
    assert_eq!(labels(WizardStep::Confirm), vec!["⏎ save", "↑ back", "esc cancel"]);
    assert_eq!(labels(WizardStep::Host), vec!["⏎ next", "↑ back", "esc cancel"]);
}

#[test]
fn confirm_summary_fills_defaults() {
    let mut app = App::new(sample());
    app.start_wizard(vec![]);
    app.wizard_advance(false);
    for c in "srv".chars() {
        app.wizard_input(c);
    }
    let w = app.wizard.as_ref().unwrap();
    let s = app.confirm_summary(w);
    assert_eq!(s.group, "G");
    assert_eq!(s.user, "dani  (default)");
    assert_eq!(s.key, "~/.ssh/id  (default)");
    assert_eq!(s.port, "22  (default)");
    assert_eq!(s.flags, "—");
    assert_eq!(s.tags, "—");
    assert_eq!(s.description, "—");
    let mut app2 = App::new(Config::default());
    app2.start_wizard(vec![]);
    app2.wizard_advance(false);
    for c in "Home".chars() {
        app2.wizard_input(c);
    }
    app2.wizard_advance(false);
    let s = app2.confirm_summary(app2.wizard.as_ref().unwrap());
    assert_eq!(s.group, "Home  (new)");
    assert_eq!(s.user, "—");
}

#[test]
fn header_counts_hosts_and_tree_arrows_follow_folds() {
    let mut app = App::new(sample());
    let expected: usize = app.config.groups.iter().map(|g| g.servers.len()).sum();
    assert_eq!(app.host_count(), expected);
    assert_eq!(App::new(Config { defaults: Defaults { user: None, key: None, port: None }, groups: vec![] }).host_count(), 0);
    assert!(app.group_open(0));
    app.expanded[0] = false;
    assert!(!app.group_open(0));
    assert!(app.group_open(7));
    app.query_push('x');
    assert!(app.group_open(0));
}

#[test]
fn details_rows_show_resolved_settings() {
    let cfg = sample();
    let g = &cfg.groups[0];
    let rows = shh::ui::detail_rows(g, &g.servers[0], &cfg.defaults);
    let want: Vec<(String, String)> = vec![
        ("host".into(), "h".into()),
        ("user".into(), "dani".into()),
        ("port".into(), "22".into()),
        ("key".into(), "~/.ssh/id".into()),
    ];
    assert_eq!(rows, want);
    let mut s = g.servers[0].clone();
    s.flags = Some("-A".into());
    s.port = Some(2222);
    let d = Defaults { user: None, key: None, port: None };
    let rows = shh::ui::detail_rows(g, &s, &d);
    assert_eq!(rows[1].1, "(none)");
    assert_eq!(rows[2].1, "2222");
    assert_eq!(rows[3].1, "(none)");
    assert_eq!(rows[4], ("flags".to_string(), "-A".to_string()));
    s.flags = Some(String::new());
    assert_eq!(shh::ui::detail_rows(g, &s, &d).len(), 4);
}
