use shh::app::{tree_rows, LowerGroup, LowerServer};
use shh::app::{
    build_key_options, opt_string, parse_tags, prune_empty_groups, reconcile_expanded, session_flash, Action, App,
    Command, FlashKind, Key, KeyOption, KeyPress, Row, SaveReason, SessionEnd, WizardMode, WizardStep,
};
use shh::config::{Config, Defaults, Group, Server};
use shh::ssh::KeyInfo;

fn server(name: &str, host: &str, tags: &[&str]) -> Server {
    Server {
        name: name.to_string(),
        host: host.to_string(),
        user: None,
        key: None,
        port: None,
        flags: None,
        tags: tags.iter().map(|t| t.to_string()).collect(),
        description: None,
    }
}

fn group(name: &str, servers: Vec<Server>) -> Group {
    Group { name: name.to_string(), icon: None, user: None, key: None, port: None, servers }
}

fn sample() -> Config {
    Config {
        defaults: Defaults { user: Some("dani".into()), key: None, port: None },
        groups: vec![
            group("Production", vec![server("web-01", "web1.example.com", &["frontend"]), server("db-01", "10.0.1.42", &[])]),
            group("Staging", vec![server("stage", "stage.example.com", &["Test"])]),
        ],
    }
}

fn type_text(app: &mut App, s: &str) {
    for c in s.chars() {
        app.wizard_input(c);
    }
}

fn clear_input(app: &mut App) {
    while !app.wizard.as_ref().unwrap().input.is_empty() {
        app.wizard_backspace();
    }
}

#[test]
fn rows_list_groups_and_servers() {
    let app = App::new(sample());
    assert_eq!(app.expanded, vec![true, true]);
    assert_eq!(
        app.visible_rows(),
        vec![Row::Group(0), Row::Server(0, 0), Row::Server(0, 1), Row::Group(1), Row::Server(1, 0)]
    );
}

#[test]
fn folded_group_hides_its_servers_unless_filtering() {
    let mut app = App::new(sample());
    app.expanded[0] = false;
    assert_eq!(app.visible_rows(), vec![Row::Group(0), Row::Group(1), Row::Server(1, 0)]);
    app.query = "db".into();
    assert_eq!(app.visible_rows(), vec![Row::Group(0), Row::Server(0, 1)]);
}

#[test]
fn query_matches_names_hosts_and_tags_case_insensitively() {
    let mut app = App::new(sample());
    app.query = "WEB1".into();
    assert_eq!(app.visible_rows(), vec![Row::Group(0), Row::Server(0, 0)]);
    app.query = "test".into();
    assert_eq!(app.visible_rows(), vec![Row::Group(1), Row::Server(1, 0)]);
    app.query = "prod".into();
    assert_eq!(app.visible_rows(), vec![Row::Group(0), Row::Server(0, 0), Row::Server(0, 1)]);
    app.query = "nothing".into();
    assert!(app.visible_rows().is_empty());
}

#[test]
fn moving_wraps_around() {
    let mut app = App::new(sample());
    app.move_up();
    assert_eq!(app.selected, 4);
    app.move_down();
    assert_eq!(app.selected, 0);
    app.move_down();
    app.move_down();
    assert_eq!(app.selected, 2);
    app.move_up();
    assert_eq!(app.selected, 1);
    let mut empty = App::new(Config::default());
    empty.move_down();
    empty.move_up();
    assert_eq!(empty.selected, 0);
}

#[test]
fn enter_connects_or_toggles() {
    let mut app = App::new(sample());
    app.selected = 2;
    assert!(matches!(app.enter(), Some(Action::Connect(0, 1))));
    app.selected = 0;
    assert!(app.enter().is_none());
    assert_eq!(app.expanded, vec![false, true]);
    assert_eq!(app.visible_rows(), vec![Row::Group(0), Row::Group(1), Row::Server(1, 0)]);
    app.selected = 2;
    app.toggle_current();
    assert_eq!(app.expanded, vec![false, true]);
    app.selected = 1;
    app.toggle_current();
    assert_eq!(app.expanded, vec![false, false]);
    assert_eq!(app.selected, 1);
}

#[test]
fn toggle_clamps_selection() {
    let mut app = App::new(sample());
    app.selected = 3;
    app.toggle_current();
    assert_eq!(app.visible_rows(), vec![Row::Group(0), Row::Server(0, 0), Row::Server(0, 1), Row::Group(1)]);
    assert_eq!(app.selected, 3);
    app.selected = 10;
    app.clamp_selection();
    assert_eq!(app.selected, 3);
}

#[test]
fn current_server_follows_selection() {
    let mut app = App::new(sample());
    assert!(app.current_server().is_none());
    app.selected = 4;
    let (gi, si, s) = app.current_server().unwrap();
    assert_eq!((gi, si, s.name.as_str()), (1, 0, "stage"));
}

#[test]
fn delete_flow_saves_then_applies() {
    let mut app = App::new(sample());
    app.selected = 4;
    app.start_delete_confirm();
    assert_eq!(app.delete_confirm, Some((1, 0)));
    let pending = app.commit_delete().unwrap();
    assert!(app.delete_confirm.is_none());
    assert_eq!(app.config.groups.len(), 2);
    assert_eq!(pending.config.groups.len(), 1);
    assert!(matches!(&pending.reason, SaveReason::Delete { removed } if removed == "stage"));
    app.finish_save(pending, Ok(()));
    assert_eq!(app.config.groups.len(), 1);
    assert_eq!(app.expanded, vec![true]);
    assert_eq!(app.selected, 2);
    let f = app.flash.as_ref().unwrap();
    assert_eq!((f.kind, f.message.as_str()), (FlashKind::Success, "✓ deleted stage"));
}

#[test]
fn failed_delete_keeps_config() {
    let mut app = App::new(sample());
    app.selected = 1;
    app.start_delete_confirm();
    let pending = app.commit_delete().unwrap();
    app.finish_save(pending, Err("disk full".into()));
    assert_eq!(app.config.groups[0].servers.len(), 2);
    let f = app.flash.as_ref().unwrap();
    assert_eq!((f.kind, f.message.as_str()), (FlashKind::Failure, "✗ delete failed: disk full"));
    app.delete_confirm = Some((5, 0));
    assert!(app.commit_delete().is_none());
    assert!(app.delete_confirm.is_none());
}

#[test]
fn rename_refuses_empty_and_duplicate_names() {
    let mut app = App::new(sample());
    app.selected = 1;
    app.start_rename_group();
    assert_eq!(app.rename_group.as_ref().unwrap().input, "Production");
    while !app.rename_group.as_ref().unwrap().input.is_empty() {
        app.rename_backspace();
    }
    app.rename_input(' ');
    assert!(app.commit_rename_group().is_none());
    assert_eq!(app.rename_group.as_ref().unwrap().error.as_deref(), Some("name cannot be empty"));
    app.rename_backspace();
    for c in "Staging".chars() {
        app.rename_input(c);
    }
    app.rename_input('\u{7}');
    assert!(app.commit_rename_group().is_none());
    assert_eq!(app.rename_group.as_ref().unwrap().error.as_deref(), Some("a group with that name already exists"));
}

#[test]
fn rename_to_same_name_closes_dialog() {
    let mut app = App::new(sample());
    app.start_rename_group();
    app.rename_input(' ');
    assert!(app.commit_rename_group().is_none());
    assert!(app.rename_group.is_none());
}

#[test]
fn rename_saves_then_applies_or_reports() {
    let mut app = App::new(sample());
    app.selected = 3;
    app.start_rename_group();
    app.rename_input('2');
    let pending = app.commit_rename_group().unwrap();
    assert!(app.rename_group.is_none());
    assert_eq!(pending.config.groups[1].name, "Staging2");
    app.finish_save(pending, Ok(()));
    assert_eq!(app.config.groups[1].name, "Staging2");
    assert_eq!(app.flash.as_ref().unwrap().message, "✓ renamed Staging → Staging2");

    app.start_rename_group();
    app.rename_input('x');
    let pending = app.commit_rename_group().unwrap();
    app.finish_save(pending, Err("read-only".into()));
    assert_eq!(app.config.groups[1].name, "Staging2");
    let r = app.rename_group.as_ref().unwrap();
    assert_eq!(r.input, "Staging2x");
    assert_eq!(r.error.as_deref(), Some("save failed: read-only"));
}

#[test]
fn wizard_adds_server_to_new_group() {
    let mut app = App::new(sample());
    app.start_wizard(vec![]);
    {
        let w = app.wizard.as_ref().unwrap();
        assert_eq!(w.step, WizardStep::PickGroup);
        assert_eq!(w.group_pick, 0);
        assert_eq!(w.key_options.len(), 1);
    }
    app.wizard_pick_down();
    app.wizard_pick_down();
    app.wizard_pick_down();
    assert_eq!(app.wizard.as_ref().unwrap().group_pick, 2);
    assert!(app.wizard_advance(false).is_none());
    assert_eq!(app.wizard.as_ref().unwrap().step, WizardStep::NewGroupName);
    assert!(app.wizard_advance(false).is_none());
    assert_eq!(app.wizard.as_ref().unwrap().error.as_deref(), Some("group name cannot be empty"));
    type_text(&mut app, "  Home ");
    app.wizard_advance(false);
    assert_eq!(app.wizard.as_ref().unwrap().new_group_name, "Home");
    type_text(&mut app, "nas");
    app.wizard_advance(false);
    type_text(&mut app, "me@nas");
    app.wizard_advance(false);
    assert_eq!(app.wizard.as_ref().unwrap().error.as_deref(), Some("don't include user@ — set user in the next step"));
    clear_input(&mut app);
    type_text(&mut app, "nas.local");
    assert_eq!(app.host_candidate().as_deref(), Some("nas.local"));
    app.wizard_advance(false);
    assert_eq!(app.wizard.as_ref().unwrap().step, WizardStep::User);
    type_text(&mut app, "admin");
    app.wizard_advance(false);
    assert_eq!(app.wizard.as_ref().unwrap().step, WizardStep::Key);
    app.wizard_advance(false);
    type_text(&mut app, "abc");
    app.wizard_advance(false);
    assert_eq!(app.wizard.as_ref().unwrap().error.as_deref(), Some("invalid port: abc"));
    clear_input(&mut app);
    type_text(&mut app, "0");
    app.wizard_advance(false);
    assert_eq!(app.wizard.as_ref().unwrap().error.as_deref(), Some("port must be between 1 and 65535"));
    clear_input(&mut app);
    type_text(&mut app, "2222");
    app.wizard_advance(false);
    type_text(&mut app, "-A");
    app.wizard_advance(false);
    type_text(&mut app, " home, ,lan ");
    app.wizard_advance(false);
    app.wizard_advance(false);
    assert_eq!(app.wizard.as_ref().unwrap().step, WizardStep::Confirm);
    let pending = app.wizard_advance(false).unwrap();
    assert!(app.wizard.is_none());
    match &pending.reason {
        SaveReason::Wizard { target_name, new_si, verb, server_name, .. } => {
            assert_eq!((target_name.as_str(), *new_si, verb.as_str(), server_name.as_str()), ("Home", 0, "added", "nas"));
        }
        _ => panic!("wrong reason"),
    }
    let s = &pending.config.groups[2].servers[0];
    assert_eq!(s.host, "nas.local");
    assert_eq!(s.user.as_deref(), Some("admin"));
    assert_eq!(s.key, None);
    assert_eq!(s.port, Some(2222));
    assert_eq!(s.flags.as_deref(), Some("-A"));
    assert_eq!(s.tags, vec!["home".to_string(), "lan".to_string()]);
    assert_eq!(s.description, None);
    app.query = "zzz".into();
    app.finish_save(pending, Ok(()));
    assert!(app.query.is_empty());
    assert_eq!(app.config.groups.len(), 3);
    assert_eq!(app.expanded, vec![true, true, true]);
    assert_eq!(app.visible_rows()[app.selected], Row::Server(2, 0));
    assert_eq!(app.flash.as_ref().unwrap().message, "✓ added nas");
}

#[test]
fn wizard_ip_host_is_accepted_when_program_says_so() {
    let mut app = App::new(sample());
    app.start_wizard(vec![]);
    app.wizard_advance(false);
    type_text(&mut app, "x");
    app.wizard_advance(false);
    type_text(&mut app, "[::1]");
    assert_eq!(app.host_candidate().as_deref(), Some("::1"));
    app.wizard_advance(false);
    assert_eq!(app.wizard.as_ref().unwrap().error.as_deref(), Some("host must be a hostname or IP address"));
    app.wizard_advance(true);
    assert_eq!(app.wizard.as_ref().unwrap().step, WizardStep::User);
    assert_eq!(app.wizard.as_ref().unwrap().draft.host, "[::1]");
}

#[test]
fn wizard_back_restores_previous_answers() {
    let mut app = App::new(sample());
    app.start_wizard(vec![]);
    app.wizard_advance(false);
    type_text(&mut app, " web-02 ");
    app.wizard_advance(false);
    assert_eq!(app.wizard.as_ref().unwrap().step, WizardStep::Host);
    app.wizard_up();
    let w = app.wizard.as_ref().unwrap();
    assert_eq!((w.step, w.input.as_str()), (WizardStep::ServerName, "web-02"));
    app.wizard_back();
    assert_eq!(app.wizard.as_ref().unwrap().step, WizardStep::PickGroup);
    app.wizard_back();
    assert_eq!(app.wizard.as_ref().unwrap().step, WizardStep::PickGroup);
    app.wizard_up();
    assert_eq!(app.wizard.as_ref().unwrap().group_pick, 0);
    app.cancel_wizard();
    assert!(app.wizard.is_none());
}

#[test]
fn wizard_edit_keeps_server_when_unchanged() {
    let mut cfg = sample();
    {
        let s = &mut cfg.groups[0].servers[1];
        s.port = Some(5432);
        s.key = Some("~/.ssh/db_key".into());
        s.tags = vec!["db".into(), "primary".into()];
        s.description = Some("primary postgres".into());
    }
    let mut app = App::new(cfg);
    app.selected = 2;
    let discovered = vec![KeyOption { path: "~/.ssh/id_ed25519".into(), info: None }];
    assert_eq!(app.key_to_fingerprint(&discovered).as_deref(), Some("~/.ssh/db_key"));
    let info = KeyInfo { algorithm: "RSA".into(), fingerprint: "SHA256:q".into() };
    app.start_wizard_edit(discovered, Some(info));
    {
        let w = app.wizard.as_ref().unwrap();
        assert_eq!(w.mode, WizardMode::Edit { gi: 0, si: 1 });
        assert_eq!(w.draft.port, "5432");
        assert_eq!(w.draft.tags, "db, primary");
        assert_eq!(w.key_options.len(), 3);
        assert_eq!(w.key_options[1].path, "~/.ssh/db_key");
        assert_eq!(w.key_pick, 1);
    }
    for _ in 0..9 {
        app.wizard_advance(false);
    }
    assert_eq!(app.wizard.as_ref().unwrap().step, WizardStep::Confirm);
    let pending = app.wizard_advance(false).unwrap();
    assert!(matches!(&pending.reason, SaveReason::Wizard { verb, new_si: 1, .. } if verb == "updated"));
    let s = &pending.config.groups[0].servers[1];
    assert_eq!(format!("{:?}", s), format!("{:?}", &app.config.groups[0].servers[1]));
    app.finish_save(pending, Err("nope".into()));
    let w = app.wizard.as_ref().unwrap();
    assert_eq!(w.error.as_deref(), Some("save failed: nope"));
    assert_eq!(w.step, WizardStep::Confirm);
}

#[test]
fn wizard_edit_moves_server_and_prunes_group() {
    let mut app = App::new(sample());
    app.selected = 4;
    app.start_wizard_edit(vec![], None);
    app.wizard_up();
    app.wizard_advance(false);
    for _ in 0..8 {
        app.wizard_advance(false);
    }
    let pending = app.wizard_advance(false).unwrap();
    assert!(matches!(&pending.reason, SaveReason::Wizard { verb, new_si: 2, .. } if verb == "moved"));
    assert_eq!(pending.config.groups.len(), 1);
    app.finish_save(pending, Ok(()));
    assert_eq!(app.config.groups[0].servers.len(), 3);
    assert_eq!(app.visible_rows()[app.selected], Row::Server(0, 2));
    assert_eq!(app.flash.as_ref().unwrap().message, "✓ moved stage");
}

#[test]
fn wizard_ignores_typing_on_pick_steps() {
    let mut app = App::new(sample());
    app.start_wizard(vec![KeyOption { path: "~/.ssh/a".into(), info: None }]);
    app.wizard_input('x');
    assert_eq!(app.wizard.as_ref().unwrap().input, "");
    app.wizard_advance(false);
    type_text(&mut app, "n");
    app.wizard_advance(false);
    type_text(&mut app, "h");
    app.wizard_advance(false);
    app.wizard_advance(false);
    app.wizard_input('z');
    app.wizard_pick_down();
    app.wizard_pick_down();
    let w = app.wizard.as_ref().unwrap();
    assert_eq!((w.step, w.input.as_str(), w.key_pick), (WizardStep::Key, "", 1));
    app.wizard_advance(false);
    assert_eq!(app.wizard.as_ref().unwrap().draft.key, "~/.ssh/a");
}

#[test]
fn keys_map_to_commands() {
    let mut app = App::new(sample());
    let k = |key: Key, ctrl: bool| KeyPress { key, ctrl };
    app.flash = Some(shh::app::Flash::ok("hi".into()));
    assert_eq!(app.key_command(k(Key::Char('c'), true)), Command::Quit);
    assert!(app.flash.is_some());
    assert_eq!(app.key_command(k(Key::Down, false)), Command::MoveDown);
    assert!(app.flash.is_none());
    assert_eq!(app.key_command(k(Key::Esc, false)), Command::Quit);
    assert_eq!(app.key_command(k(Key::Char('a'), true)), Command::StartWizard);
    assert_eq!(app.key_command(k(Key::Char('e'), true)), Command::StartWizardEdit);
    assert_eq!(app.key_command(k(Key::Char('d'), true)), Command::StartDelete);
    assert_eq!(app.key_command(k(Key::Char('r'), true)), Command::StartRename);
    assert_eq!(app.key_command(k(Key::Char('q'), false)), Command::QueryInput('q'));
    assert_eq!(app.key_command(k(Key::Right, false)), Command::Enter);
    app.query_push('w');
    assert_eq!(app.key_command(k(Key::Esc, false)), Command::ClearQuery);
    app.delete_confirm = Some((0, 0));
    assert_eq!(app.key_command(k(Key::Char('Y'), false)), Command::CommitDelete);
    assert_eq!(app.key_command(k(Key::Char('n'), false)), Command::CancelDelete);
    app.start_wizard(vec![]);
    assert_eq!(app.key_command(k(Key::Char('x'), false)), Command::Ignore);
    app.delete_confirm = None;
    assert_eq!(app.key_command(k(Key::Char('x'), false)), Command::WizardInput('x'));
    assert_eq!(app.key_command(k(Key::Left, false)), Command::WizardBack);
    app.start_rename_group();
    assert_eq!(app.key_command(k(Key::Char('x'), true)), Command::Ignore);
    assert_eq!(app.key_command(k(Key::Enter, false)), Command::CommitRename);
}

#[test]
fn query_edits_keep_selection_in_range() {
    let mut app = App::new(sample());
    app.selected = 4;
    app.query_push('d');
    app.query_push('b');
    assert_eq!(app.visible_rows().len(), 2);
    assert_eq!(app.selected, 1);
    app.query_pop();
    assert_eq!(app.query, "d");
    app.clear_query();
    assert!(app.query.is_empty());
}

#[test]
fn session_messages() {
    assert!(session_flash("web", &SessionEnd::Exited { success: true, code: Some(0) }).is_none());
    let f = session_flash("web", &SessionEnd::Exited { success: false, code: Some(255) }).unwrap();
    assert_eq!((f.kind, f.message.as_str()), (FlashKind::Failure, "✗ web — connection failed"));
    assert_eq!(session_flash("web", &SessionEnd::Exited { success: false, code: Some(1) }).unwrap().message, "✗ web — exit 1");
    assert_eq!(session_flash("web", &SessionEnd::Exited { success: false, code: None }).unwrap().message, "✗ web — exit killed");
    assert_eq!(
        session_flash("web", &SessionEnd::SpawnFailed("No such file".into())).unwrap().message,
        "✗ couldn't run ssh: No such file"
    );
}

#[test]
fn key_options_put_existing_key_after_none() {
    let d = vec![KeyOption { path: "~/.ssh/a".into(), info: None }, KeyOption { path: "~/.ssh/b".into(), info: None }];
    let info = KeyInfo { algorithm: "ED25519".into(), fingerprint: "SHA256:z".into() };
    let opts = build_key_options("  ~/.ssh/c ", d, Some(info));
    let paths: Vec<&str> = opts.iter().map(|o| o.path.as_str()).collect();
    assert_eq!(paths, vec!["", "~/.ssh/c", "~/.ssh/a", "~/.ssh/b"]);
    assert_eq!(opts[1].info.as_ref().unwrap().algorithm, "ED25519");
    let d = vec![KeyOption { path: "~/.ssh/a".into(), info: None }];
    let opts = build_key_options("~/.ssh/a", d, None);
    assert_eq!(opts.len(), 2);
    assert_eq!(build_key_options("", vec![], None).len(), 1);
}

#[test]
fn answers_become_settings() {
    assert_eq!(opt_string("  x "), Some("x".to_string()));
    assert_eq!(opt_string("   "), None);
    assert_eq!(parse_tags(" a, b ,,c,"), vec!["a".to_string(), "b".to_string(), "c".to_string()]);
    assert!(parse_tags("").is_empty());
}

#[test]
fn pruning_and_flag_reconciliation() {
    let mut c = sample();
    c.groups[1].servers.clear();
    prune_empty_groups(&mut c);
    assert_eq!(c.groups.len(), 1);
    let old = sample().groups;
    let new = vec![group("Staging", vec![]), group("New", vec![]), group("Production", vec![])];
    assert_eq!(reconcile_expanded(&old, &[true, false], &new), vec![false, true, true]);
    assert_eq!(reconcile_expanded(&old, &[true], &new), vec![true, true, true]);
}

#[test]
fn tree_rows_match_the_given_lowercase_texts() {
    let ls = |name: &str, host: &str, tags: &[&str]| LowerServer {
        name: name.into(),
        host: host.into(),
        tags: tags.iter().map(|t| t.to_string()).collect(),
    };
    let groups = vec![
        LowerGroup { name: "prod".into(), servers: vec![ls("web", "w.example", &["front"]), ls("db", "10.0.0.1", &[])] },
        LowerGroup { name: "stage".into(), servers: vec![ls("st", "s.example", &["test"])] },
    ];
    assert_eq!(
        tree_rows(&groups, &vec![true, false], ""),
        vec![Row::Group(0), Row::Server(0, 0), Row::Server(0, 1), Row::Group(1)]
    );
    assert_eq!(tree_rows(&groups, &vec![true, false], "front"), vec![Row::Group(0), Row::Server(0, 0)]);
    assert_eq!(tree_rows(&groups, &vec![false, false], "stag"), vec![Row::Group(1), Row::Server(1, 0)]);
    assert_eq!(tree_rows(&groups, &vec![], "10.0"), vec![Row::Group(0), Row::Server(0, 1)]);
    assert_eq!(tree_rows(&groups, &vec![], "nothing"), vec![]);
    assert_eq!(tree_rows(&groups, &vec![], "WEB"), vec![]);
}

#[test]
fn wizard_requires_a_name_and_a_host() {
    let mut app = App::new(sample());
    app.start_wizard(vec![]);
    app.wizard_advance(false);
    type_text(&mut app, "   ");
    app.wizard_advance(false);
    {
        let w = app.wizard.as_ref().unwrap();
        assert_eq!((w.step, w.error.as_deref()), (WizardStep::ServerName, Some("server name required")));
    }
    type_text(&mut app, "x");
    app.wizard_advance(false);
    app.wizard_advance(false);
    let w = app.wizard.as_ref().unwrap();
    assert_eq!((w.step, w.error.as_deref()), (WizardStep::Host, Some("host required")));
    assert_eq!(w.draft.name, "x");
}
