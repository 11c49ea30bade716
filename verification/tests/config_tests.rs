use shh::config::{sanitize_config, sanitize_opt, sanitize_str, Config, Defaults, Group, Server};

fn server(name: &str, host: &str) -> Server {
    Server {
        name: name.to_string(),
        host: host.to_string(),
        user: None,
        key: None,
        port: None,
        flags: None,
        tags: Vec::new(),
        description: None,
    }
}

fn group(name: &str, servers: Vec<Server>) -> Group {
    Group { name: name.to_string(), icon: None, user: None, key: None, port: None, servers }
}

#[test]
fn user_resolution_prefers_server_then_group_then_defaults() {
    let defaults = Defaults { user: Some("dani".into()), key: None, port: None };
    let mut g = group("Production", vec![]);
    let mut s = server("web-01", "web1.example.com");
    assert_eq!(s.resolved_user(&g, &defaults), Some("dani".to_string()));
    g.user = Some("ops".into());
    assert_eq!(s.resolved_user(&g, &defaults), Some("ops".to_string()));
    s.user = Some("deploy".into());
    assert_eq!(s.resolved_user(&g, &defaults), Some("deploy".to_string()));
    let none = Defaults::default();
    let plain = group("x", vec![]);
    let bare = server("a", "b");
    assert_eq!(bare.resolved_user(&plain, &none), None);
}

#[test]
fn key_resolution_prefers_server_then_group_then_defaults() {
    let defaults = Defaults { user: None, key: Some("~/.ssh/id_ed25519".into()), port: None };
    let mut g = group("g", vec![]);
    let mut s = server("db-01", "10.0.1.42");
    assert_eq!(s.resolved_key(&g, &defaults), Some("~/.ssh/id_ed25519".to_string()));
    g.key = Some("~/.ssh/group_key".into());
    assert_eq!(s.resolved_key(&g, &defaults), Some("~/.ssh/group_key".to_string()));
    s.key = Some("~/.ssh/db_key".into());
    assert_eq!(s.resolved_key(&g, &defaults), Some("~/.ssh/db_key".to_string()));
}

#[test]
fn port_resolution_is_server_then_group_then_defaults_then_22() {
    let mut defaults = Defaults::default();
    let mut g = group("G", vec![]);
    let mut s = server("a", "b");
    assert_eq!(s.resolved_port(&g, &defaults), 22);
    defaults.port = Some(2200);
    assert_eq!(s.resolved_port(&g, &defaults), 2200);
    g.port = Some(2022);
    assert_eq!(s.resolved_port(&g, &defaults), 2022);
    s.port = Some(443);
    assert_eq!(s.resolved_port(&g, &defaults), 443);
}

#[test]
fn sanitize_replaces_control_characters_but_keeps_tabs() {
    let mut s = String::from("a\u{1b}[31mb\tc\u{7f}d\u{85}e");
    sanitize_str(&mut s);
    assert_eq!(s, "a?[31mb\tc?d?e");
    let mut plain = String::from("héllo wörld");
    sanitize_str(&mut plain);
    assert_eq!(plain, "héllo wörld");
}

#[test]
fn sanitize_opt_leaves_none_alone() {
    let mut o: Option<String> = None;
    sanitize_opt(&mut o);
    assert_eq!(o, None);
    let mut o = Some("x\ny".to_string());
    sanitize_opt(&mut o);
    assert_eq!(o, Some("x?y".to_string()));
}

#[test]
fn sanitize_config_cleans_every_text() {
    let mut s = server("web\u{7}", "host\r");
    s.user = Some("u\u{0}".into());
    s.key = Some("k\u{1}".into());
    s.flags = Some("-A\u{2}".into());
    s.tags = vec!["t\u{3}".into(), "ok".into()];
    s.description = Some("d\u{4}".into());
    s.port = Some(22);
    let mut g = group("g\u{5}", vec![s]);
    g.icon = Some("i\u{6}".into());
    g.user = Some("gu\u{8}".into());
    g.key = Some("gk\u{b}".into());
    let mut c = Config {
        defaults: Defaults { user: Some("du\u{c}".into()), key: Some("dk\u{e}".into()), port: Some(1) },
        groups: vec![g],
    };
    sanitize_config(&mut c);
    assert_eq!(c.defaults.user.as_deref(), Some("du?"));
    assert_eq!(c.defaults.key.as_deref(), Some("dk?"));
    assert_eq!(c.defaults.port, Some(1));
    let g = &c.groups[0];
    assert_eq!(g.name, "g?");
    assert_eq!(g.icon.as_deref(), Some("i?"));
    assert_eq!(g.user.as_deref(), Some("gu?"));
    assert_eq!(g.key.as_deref(), Some("gk?"));
    let s = &g.servers[0];
    assert_eq!(s.name, "web?");
    assert_eq!(s.host, "host?");
    assert_eq!(s.user.as_deref(), Some("u?"));
    assert_eq!(s.key.as_deref(), Some("k?"));
    assert_eq!(s.flags.as_deref(), Some("-A?"));
    assert_eq!(s.tags, vec!["t?".to_string(), "ok".to_string()]);
    assert_eq!(s.description.as_deref(), Some("d?"));
    assert_eq!(s.port, Some(22));
}

#[test]
fn sanitize_twice_changes_nothing_more() {
    let mut c = Config {
        defaults: Defaults::default(),
        groups: vec![group("a\u{1b}b", vec![server("x\u{9}y", "h\u{0}")])],
    };
    sanitize_config(&mut c);
    let once = format!("{:?}", c);
    sanitize_config(&mut c);
    assert_eq!(format!("{:?}", c), once);
    assert_eq!(c.groups[0].servers[0].name, "x\ty");
}

#[test]
fn clone_keeps_everything() {
    let mut s = server("a", "b");
    s.tags = vec!["t".into()];
    s.port = Some(7);
    let c = Config { defaults: Defaults { user: Some("u".into()), key: None, port: Some(2) }, groups: vec![group("g", vec![s])] };
    let d = c.clone();
    assert_eq!(format!("{:?}", c), format!("{:?}", d));
    let e = Config::default();
    assert!(e.groups.is_empty());
    assert!(e.defaults.user.is_none() && e.defaults.key.is_none() && e.defaults.port.is_none());
}
