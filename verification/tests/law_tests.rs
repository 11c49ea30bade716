use shh::app::{prune_empty_groups, reconcile_expanded, App, Command, Key, KeyPress, Row, WizardStep};
use shh::config::{sanitize_config, Config, Defaults, Group, Server};
use shh::host::validate_host;
use shh::ssh::{command_preview, ssh_args};

fn server(name: &str, host: &str) -> Server {
    Server {
        name: name.to_string(),
        host: host.to_string(),
        user: None,
        key: None,
        port: None,
        flags: None,
        tags: vec![],
        description: None,
    }
}

fn group(name: &str, servers: Vec<Server>) -> Group {
    Group { name: name.to_string(), icon: None, user: None, key: None, port: None, servers }
}

fn config() -> Config {
    Config {
        defaults: Defaults { user: None, key: None, port: None },
        groups: vec![
            group("Alpha", vec![server("a1", "a1.example.com"), server("a2", "a2.example.com")]),
            group("Beta", vec![server("b1", "b1.example.com")]),
        ],
    }
}

#[test]
fn up_after_down_returns_to_the_row() {
    let mut app = App::new(config());
    for start in 0..5 {
        app.selected = start;
        app.move_down();
        app.move_up();
        assert_eq!(app.selected, start);
        app.move_up();
        app.move_down();
        assert_eq!(app.selected, start);
    }
}

#[test]
fn clamp_keeps_selection_on_a_row() {
    let mut app = App::new(config());
    app.selected = 17;
    app.clamp_selection();
    assert_eq!(app.selected, 4);
    app.selected = 2;
    app.clamp_selection();
    assert_eq!(app.selected, 2);
}

#[test]
fn sanitizing_twice_changes_nothing_more() {
    let mut cfg = config();
    cfg.groups[0].name = "Al\u{1b}[31mpha".into();
    cfg.groups[0].servers[0].tags = vec!["t\u{7}ag".into()];
    cfg.defaults.user = Some("ro\tot\u{0}".into());
    sanitize_config(&mut cfg);
    assert_eq!(cfg.groups[0].name, "Al?[31mpha");
    assert_eq!(cfg.groups[0].servers[0].tags, vec!["t?ag".to_string()]);
    assert_eq!(cfg.defaults.user.as_deref(), Some("ro\tot?"));
    let once = format!("{:?}", cfg);
    sanitize_config(&mut cfg);
    assert_eq!(format!("{:?}", cfg), once);
}

#[test]
fn empty_query_lists_every_row() {
    let mut app = App::new(config());
    app.expanded[1] = false;
    assert_eq!(app.visible_rows(), vec![Row::Group(0), Row::Server(0, 0), Row::Server(0, 1), Row::Group(1)]);
}

#[test]
fn query_shows_only_matches() {
    let mut app = App::new(config());
    app.query_push('A');
    app.query_push('2');
    assert_eq!(app.visible_rows(), vec![Row::Group(0), Row::Server(0, 1)]);
    app.clear_query();
    app.query_push('b');
    app.query_push('e');
    assert_eq!(app.visible_rows(), vec![Row::Group(1), Row::Server(1, 0)]);
}

#[test]
fn back_after_advance_returns_to_the_answer() {
    let mut app = App::new(config());
    app.start_wizard(vec![]);
    app.wizard_advance(false);
    for c in "  web  ".chars() {
        app.wizard_input(c);
    }
    app.wizard_advance(false);
    assert_eq!(app.wizard.as_ref().unwrap().step, WizardStep::Host);
    app.wizard_back();
    let w = app.wizard.as_ref().unwrap();
    assert_eq!((w.step, w.input.as_str()), (WizardStep::ServerName, "web"));
}

#[test]
fn edit_keeps_the_port() {
    let mut cfg = config();
    cfg.groups[1].servers[0].port = Some(2222);
    let mut app = App::new(cfg);
    app.selected = 4;
    app.start_wizard_edit(vec![], None);
    for _ in 0..9 {
        app.wizard_advance(false);
    }
    let pending = app.wizard_advance(false).unwrap();
    assert_eq!(pending.config.groups[1].servers[0].port, Some(2222));
}

#[test]
fn pruning_leaves_groups_with_servers() {
    let mut cfg = config();
    cfg.groups.insert(1, group("Empty", vec![]));
    prune_empty_groups(&mut cfg);
    assert_eq!(cfg.groups.iter().map(|g| g.name.as_str()).collect::<Vec<_>>(), vec!["Alpha", "Beta"]);
    prune_empty_groups(&mut cfg);
    assert_eq!(cfg.groups.len(), 2);
}

#[test]
fn reconcile_keeps_each_flag() {
    let cfg = config();
    assert_eq!(reconcile_expanded(&cfg.groups, &[false, true], &cfg.groups), vec![false, true]);
    assert_eq!(reconcile_expanded(&cfg.groups, &[true, false], &cfg.groups), vec![true, false]);
}

#[test]
fn rename_refuses_a_taken_name() {
    let mut app = App::new(config());
    app.selected = 3;
    app.start_rename_group();
    while !app.rename_group.as_ref().unwrap().input.is_empty() {
        app.rename_backspace();
    }
    for c in "Alpha".chars() {
        app.rename_input(c);
    }
    assert!(app.commit_rename_group().is_none());
    assert!(app.rename_group.as_ref().unwrap().error.is_some());
}

#[test]
fn ctrl_c_quits_from_every_dialog() {
    let mut app = App::new(config());
    let ctrl_c = KeyPress { key: Key::Char('c'), ctrl: true };
    assert_eq!(app.key_command(ctrl_c), Command::Quit);
    app.start_wizard(vec![]);
    assert_eq!(app.key_command(ctrl_c), Command::Quit);
    app.cancel_wizard();
    app.selected = 1;
    app.start_delete_confirm();
    assert_eq!(app.key_command(ctrl_c), Command::Quit);
}

#[test]
fn accepted_hosts_are_plain() {
    assert_eq!(validate_host("web.example.com", false), None);
    assert!(validate_host("root@web", false).is_some());
    assert!(validate_host("we b", false).is_some());
    assert!(validate_host("web\u{7}", false).is_some());
}

#[test]
fn preview_is_the_command_that_runs() {
    let mut s = server("a1", "a1.example.com");
    s.port = Some(2200);
    s.user = Some("ops".into());
    s.flags = Some("-A -v".into());
    let g = group("Alpha", vec![]);
    let d = Defaults { user: None, key: Some("~/.ssh/id".into()), port: None };
    let preview = command_preview(&g, &s, &d);
    let args = ssh_args(&g, &s, &d, &None);
    assert_eq!(preview, format!("ssh {}", args.join(" ")));
    assert_eq!(preview, "ssh ops@a1.example.com -p 2200 -i ~/.ssh/id -A -v");
}

fn host_count(cfg: &Config) -> usize {
    cfg.groups.iter().map(|g| g.servers.len()).sum()
}

#[test]
fn delete_removes_exactly_one_host() {
    let mut app = App::new(config());
    app.selected = 4;
    app.start_delete_confirm();
    let pending = app.commit_delete().unwrap();
    assert_eq!(host_count(&pending.config), host_count(&app.config) - 1);
    assert_eq!(pending.config.groups.len(), 1);
}

#[test]
fn wizard_adds_one_host_and_edit_keeps_the_count() {
    let mut app = App::new(config());
    app.start_wizard(vec![]);
    app.wizard_advance(false);
    for text in ["new", "new.example.com"] {
        for c in text.chars() {
            app.wizard_input(c);
        }
        app.wizard_advance(false);
    }
    for _ in 0..6 {
        app.wizard_advance(false);
    }
    let pending = app.wizard_advance(false).unwrap();
    assert_eq!(host_count(&pending.config), host_count(&app.config) + 1);

    let mut app = App::new(config());
    app.selected = 1;
    app.start_wizard_edit(vec![], None);
    app.wizard_pick_down();
    for _ in 0..9 {
        app.wizard_advance(false);
    }
    let pending = app.wizard_advance(false).unwrap();
    assert_eq!(host_count(&pending.config), host_count(&app.config));
    assert_eq!(pending.config.groups[1].servers.len(), 2);
}

#[test]
fn edit_without_changes_keeps_the_server() {
    let mut cfg = config();
    {
        let s = &mut cfg.groups[0].servers[1];
        s.user = Some("ops".into());
        s.key = Some("~/.ssh/k".into());
        s.flags = Some("-A -J jump".into());
        s.tags = vec!["db".into(), "eu west".into()];
        s.description = Some("primary".into());
        s.port = Some(2022);
    }
    let before = format!("{:?}", cfg.groups[0].servers[1]);
    let mut app = App::new(cfg);
    app.selected = 2;
    app.start_wizard_edit(vec![], None);
    for _ in 0..9 {
        app.wizard_advance(false);
    }
    let pending = app.wizard_advance(false).unwrap();
    assert_eq!(format!("{:?}", pending.config.groups[0].servers[1]), before);
}

#[test]
fn query_hides_no_match_even_when_folded() {
    let mut app = App::new(config());
    app.expanded = vec![false, false];
    app.query_push('b');
    let rows = app.visible_rows();
    assert!(rows.contains(&Row::Group(1)));
    assert!(rows.contains(&Row::Server(1, 0)));
    app.clear_query();
    app.query_push('A');
    app.query_push('2');
    assert!(app.visible_rows().contains(&Row::Server(0, 1)));
}

#[test]
fn toggling_twice_restores_the_tree() {
    let mut app = App::new(config());
    app.selected = 3;
    let rows = app.visible_rows();
    app.toggle_current();
    assert_eq!((app.expanded.clone(), app.selected), (vec![true, false], 3));
    app.toggle_current();
    assert_eq!((app.expanded.clone(), app.selected), (vec![true, true], 3));
    assert_eq!(app.visible_rows(), rows);
    app.selected = 0;
    app.toggle_current();
    assert_eq!((app.expanded.clone(), app.selected), (vec![false, true], 0));
    app.toggle_current();
    assert_eq!(app.expanded, vec![true, true]);
}

#[test]
fn edit_and_enter_through_keeps_the_config() {
    let mut cfg = config();
    cfg.groups[1].servers[0].tags = vec!["x".into(), "y z".into()];
    cfg.groups[1].servers[0].user = Some("me".into());
    let before = format!("{:?}", cfg);
    let mut app = App::new(cfg);
    app.selected = 4;
    app.start_wizard_edit(vec![], None);
    let mut pending = None;
    for _ in 0..10 {
        pending = app.wizard_advance(false);
    }
    let pending = pending.unwrap();
    app.finish_save(pending, Ok(()));
    assert_eq!(format!("{:?}", app.config), before);
    assert!(app.wizard.is_none());
    assert_eq!(app.flash.as_ref().unwrap().message, "✓ updated b1");
}

#[test]
fn wizard_steps_before_confirm_ignore_group_indices() {
    let mut app = App::new(config());
    app.start_wizard(vec![]);
    app.wizard.as_mut().unwrap().group_idx = Some(9);
    app.wizard.as_mut().unwrap().step = WizardStep::Port;
    for c in "2200".chars() {
        app.wizard_input(c);
    }
    assert!(app.wizard_advance(false).is_none());
    let w = app.wizard.as_ref().unwrap();
    assert_eq!((w.step, w.draft.port.as_str()), (WizardStep::Flags, "2200"));
}
